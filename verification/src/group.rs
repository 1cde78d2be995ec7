//! How a group element written in the program is decoded into a point of
//! the Edwards curve: which recovery it asks for, and which of the candidate
//! points a recovery settles on. The curve arithmetic itself is done by the
//! caller, which hands the candidate points back.
use crate::ir::{Field, Group, GroupCoordinate};
use vstd::prelude::*;

verus! {

/// The way a group element is turned into a curve point.
pub enum Recovery<'a> {
    /// The neutral element: the number is zero.
    Zero,
    /// The generator times the number.
    Multiple(&'a Field),
    /// The point with this x coordinate; the y coordinate is recovered with
    /// the high sign, the low sign, or whichever of the two gives a point.
    FromX(&'a Field, Option<bool>),
    /// The point with this y coordinate, the x coordinate recovered likewise.
    FromY(&'a Field, Option<bool>),
    /// The point with these two coordinates, which must lie on the curve.
    Pair(&'a Field, &'a Field),
}

#[derive(Clone, Debug, PartialEq, Eq)]
pub enum GroupError {
    /// Both coordinates ask to be recovered; the text shows the pair, as
    /// `(+, _)`.
    InvalidGroup(String),
    /// No point has the given x coordinate with the asked sign.
    XRecover,
    /// No point has the given y coordinate with the asked sign.
    YRecover,
}

pub open spec fn all_zero(values: Seq<u64>) -> bool {
    forall|i: int| 0 <= i < values.len() ==> values[i] == 0
}

/// The recovery a pair of coordinates asks for; none where both
/// coordinates ask to be recovered.
pub open spec fn tuple_recovery<'a>(x: &'a GroupCoordinate, y: &'a GroupCoordinate) -> Option<Recovery<'a>> {
    match (x, y) {
        (GroupCoordinate::Field(fx), GroupCoordinate::Field(fy)) => Some(Recovery::Pair(fx, fy)),
        (GroupCoordinate::Field(fx), GroupCoordinate::SignHigh) => Some(Recovery::FromX(fx, Some(true))),
        (GroupCoordinate::Field(fx), GroupCoordinate::SignLow) => Some(Recovery::FromX(fx, Some(false))),
        (GroupCoordinate::Field(fx), GroupCoordinate::Inferred) => Some(Recovery::FromX(fx, None)),
        (GroupCoordinate::SignHigh, GroupCoordinate::Field(fy)) => Some(Recovery::FromY(fy, Some(true))),
        (GroupCoordinate::SignLow, GroupCoordinate::Field(fy)) => Some(Recovery::FromY(fy, Some(false))),
        (GroupCoordinate::Inferred, GroupCoordinate::Field(fy)) => Some(Recovery::FromY(fy, None)),
        _ => None,
    }
}

/// How a coordinate that asks to be recovered is written: `+` for the high
/// sign, `-` for the low one, `_` for either.
pub open spec fn sign_text(c: GroupCoordinate) -> Seq<char> {
    match c {
        GroupCoordinate::SignHigh => seq!['+'],
        GroupCoordinate::SignLow => seq!['-'],
        GroupCoordinate::Inferred => seq!['_'],
        GroupCoordinate::Field(_) => Seq::empty(),
    }
}

/// The text of a pair of coordinates that both ask to be recovered.
pub open spec fn pair_text(x: GroupCoordinate, y: GroupCoordinate) -> Seq<char> {
    seq!['('] + sign_text(x) + seq![',', ' '] + sign_text(y) + seq![')']
}

/// The candidate a recovery settles on, given the point recovered with the
/// low sign and the one recovered with the high sign, where there is one:
/// the asked sign's, or where no sign is asked the low one before the high
/// one.
pub open spec fn settled<P>(greatest: Option<bool>, low: Option<P>, high: Option<P>) -> Option<P> {
    match greatest {
        Some(true) => high,
        Some(false) => low,
        None => if low is Some {
            low
        } else {
            high
        },
    }
}

/// The recovery a single number asks for: the neutral element where every
/// limb is zero, else a multiple of the generator.
pub fn edwards_affine_from_single(number: &Field) -> (r: Recovery)
    ensures
        r == (if all_zero(number.values@) {
            Recovery::Zero
        } else {
            Recovery::Multiple(number)
        }),
{
    let mut i: usize = 0;
    while i < number.values.len()
        invariant
            i <= number.values@.len(),
            forall|j: int| 0 <= j < i ==> number.values@[j] == 0,
        decreases number.values.len() - i,
    {
        if number.values[i] != 0 {
            return Recovery::Multiple(number);
        }
        i = i + 1;
    }
    Recovery::Zero
}

/// The recovery a pair of coordinates asks for: see `tuple_recovery`.
pub fn edwards_affine_from_tuple<'a>(x: &'a GroupCoordinate, y: &'a GroupCoordinate) -> (r: Result<
    Recovery<'a>,
    GroupError,
>)
    ensures
        match tuple_recovery(x, y) {
            Some(rec) => r == Ok::<Recovery, GroupError>(rec),
            None => r matches Err(GroupError::InvalidGroup(text)) && text@ == pair_text(*x, *y),
        },
{
    match (x, y) {
        (GroupCoordinate::Field(fx), GroupCoordinate::Field(fy)) => Ok(Recovery::Pair(fx, fy)),
        (GroupCoordinate::Field(fx), GroupCoordinate::SignHigh) => Ok(Recovery::FromX(fx, Some(true))),
        (GroupCoordinate::Field(fx), GroupCoordinate::SignLow) => Ok(Recovery::FromX(fx, Some(false))),
        (GroupCoordinate::Field(fx), GroupCoordinate::Inferred) => Ok(Recovery::FromX(fx, None)),
        (GroupCoordinate::SignHigh, GroupCoordinate::Field(fy)) => Ok(Recovery::FromY(fy, Some(true))),
        (GroupCoordinate::SignLow, GroupCoordinate::Field(fy)) => Ok(Recovery::FromY(fy, Some(false))),
        (GroupCoordinate::Inferred, GroupCoordinate::Field(fy)) => Ok(Recovery::FromY(fy, None)),
        _ => Err(GroupError::InvalidGroup(pair_string(x, y))),
    }
}

fn sign_str(c: &GroupCoordinate) -> (s: &'static str)
    ensures
        s@ == sign_text(*c),
{
    proof {
        reveal_strlit("+");
        reveal_strlit("-");
        reveal_strlit("_");
        reveal_strlit("");
    }
    match c {
        GroupCoordinate::SignHigh => "+",
        GroupCoordinate::SignLow => "-",
        GroupCoordinate::Inferred => "_",
        GroupCoordinate::Field(_) => "",
    }
}

/// The text of a pair of coordinates: see `pair_text`.
fn pair_string(x: &GroupCoordinate, y: &GroupCoordinate) -> (s: String)
    ensures
        s@ == pair_text(*x, *y),
{
    proof {
        reveal_strlit("(");
        reveal_strlit(", ");
        reveal_strlit(")");
    }
    let mut s = String::from_str("(");
    s.append(sign_str(x));
    s.append(", ");
    s.append(sign_str(y));
    s.append(")");
    assert(s@ =~= pair_text(*x, *y));
    s
}

/// The recovery a group element asks for.
pub fn edwards_affine_from_value(value: &Group) -> (r: Result<Recovery, GroupError>)
    ensures
        match value {
            Group::Single(number) => r == Ok::<Recovery, GroupError>(
                if all_zero(number.values@) {
                    Recovery::Zero
                } else {
                    Recovery::Multiple(number)
                },
            ),
            Group::Tuple(x, y) => match tuple_recovery(x, y) {
                Some(rec) => r == Ok::<Recovery, GroupError>(rec),
                None => r matches Err(GroupError::InvalidGroup(text)) && text@ == pair_text(*x, *y),
            },
        },
{
    match value {
        Group::Single(number) => Ok(edwards_affine_from_single(number)),
        Group::Tuple(x, y) => edwards_affine_from_tuple(x, y),
    }
}

/// The point recovered from an x coordinate: see `settled`; none is an
/// error.
pub fn edwards_affine_from_x<P>(greatest: Option<bool>, low: Option<P>, high: Option<P>) -> (r: Result<P, GroupError>)
    ensures
        match settled(greatest, low, high) {
            Some(p) => r == Ok::<P, GroupError>(p),
            None => r == Err::<P, GroupError>(GroupError::XRecover),
        },
{
    match settle(greatest, low, high) {
        Some(p) => Ok(p),
        None => Err(GroupError::XRecover),
    }
}

/// The point recovered from a y coordinate: see `settled`; none is an
/// error.
pub fn edwards_affine_from_y<P>(greatest: Option<bool>, low: Option<P>, high: Option<P>) -> (r: Result<P, GroupError>)
    ensures
        match settled(greatest, low, high) {
            Some(p) => r == Ok::<P, GroupError>(p),
            None => r == Err::<P, GroupError>(GroupError::YRecover),
        },
{
    match settle(greatest, low, high) {
        Some(p) => Ok(p),
        None => Err(GroupError::YRecover),
    }
}

fn settle<P>(greatest: Option<bool>, low: Option<P>, high: Option<P>) -> (r: Option<P>)
    ensures
        r == settled(greatest, low, high),
{
    match greatest {
        Some(true) => high,
        Some(false) => low,
        None => match low {
            Some(p) => Some(p),
            None => high,
        },
    }
}

} // verus!
