//! The transaction kernel: the public parts of a transaction that its
//! signature covers, how they are checked against the network's constants,
//! and how they are written to and read from bytes.
use vstd::bytes::{
    lemma_auto_spec_u64_to_from_le_bytes, spec_u64_from_le_bytes, spec_u64_to_le_bytes,
    u64_from_le_bytes, u64_to_le_bytes,
};
use vstd::prelude::*;
use vstd::slice::{slice_subrange, slice_to_vec};

verus! {

/// The constants of a network that a kernel is checked and read against:
/// its id, how many records a transaction spends and makes, and the encoded
/// sizes of a serial number, a commitment and a memo.
pub struct KernelParameters {
    pub network_id: u8,
    pub num_input_records: usize,
    pub num_output_records: usize,
    pub serial_number_size: usize,
    pub commitment_size: usize,
    pub memo_size: usize,
}

/// The core (public) components of a transaction. A signed kernel shows
/// that the signer authorised the transaction. Serial numbers and
/// commitments are held as their encodings.
#[derive(Clone, Debug, PartialEq, Eq)]
pub struct TransactionKernel {
    /// The network ID.
    pub network_id: u8,
    /// The serial numbers of the input records.
    pub serial_numbers: Vec<Vec<u8>>,
    /// The commitments of the output records.
    pub commitments: Vec<Vec<u8>>,
    /// The difference between the input and output record values.
    pub value_balance: i64,
    /// Publicly visible data of the transaction.
    pub memo: Vec<u8>,
}

#[derive(Clone, Debug, PartialEq, Eq)]
pub enum DpcError {
    /// The kernel's network id, number of serial numbers and number of
    /// commitments, where one of them does not fit the network.
    InvalidKernel(u8, usize, usize),
    /// The bytes ended before a whole kernel was read.
    UnexpectedEof,
}

pub struct KernelView {
    pub network_id: u8,
    pub serial_numbers: Seq<Seq<u8>>,
    pub commitments: Seq<Seq<u8>>,
    pub value_balance: i64,
    pub memo: Seq<u8>,
}

pub open spec fn byte_strings(v: Seq<Vec<u8>>) -> Seq<Seq<u8>> {
    v.map_values(|b: Vec<u8>| b@)
}

impl View for TransactionKernel {
    type V = KernelView;

    open spec fn view(&self) -> KernelView {
        KernelView {
            network_id: self.network_id,
            serial_numbers: byte_strings(self.serial_numbers@),
            commitments: byte_strings(self.commitments@),
            value_balance: self.value_balance,
            memo: self.memo@,
        }
    }
}

/// A kernel fits the network: its id, one serial number per input record
/// and one commitment per output record, each part of its encoded size.
pub open spec fn valid_kernel(k: KernelView, p: KernelParameters) -> bool {
    &&& k.network_id == p.network_id
    &&& k.serial_numbers.len() == p.num_input_records
    &&& k.commitments.len() == p.num_output_records
    &&& sized_kernel(k, p)
}

/// Every part of a kernel has the encoded size that the network gives it.
pub open spec fn sized_kernel(k: KernelView, p: KernelParameters) -> bool {
    &&& forall|j: int| 0 <= j < k.serial_numbers.len() ==> #[trigger] k.serial_numbers[j].len() == p.serial_number_size
    &&& forall|j: int| 0 <= j < k.commitments.len() ==> #[trigger] k.commitments[j].len() == p.commitment_size
    &&& k.memo.len() == p.memo_size
}

/// The byte strings one after the other.
pub open spec fn flatten(xs: Seq<Seq<u8>>) -> Seq<u8>
    decreases xs.len(),
{
    if xs.len() == 0 {
        Seq::empty()
    } else {
        flatten(xs.drop_last()) + xs.last()
    }
}

/// The encoding of a kernel: the network id, the serial numbers, the
/// commitments, the value balance in 8 little-endian bytes, and the memo.
pub open spec fn kernel_bytes(k: KernelView) -> Seq<u8> {
    seq![k.network_id] + flatten(k.serial_numbers) + flatten(k.commitments) + spec_u64_to_le_bytes(
        k.value_balance as u64,
    ) + k.memo
}

/// The number of bytes a kernel of the network takes.
pub open spec fn kernel_size(p: KernelParameters) -> int {
    1 + p.num_input_records * p.serial_number_size + p.num_output_records * p.commitment_size + 8
        + p.memo_size
}

/// `count` byte strings of `size` bytes each, read from `start` on.
pub open spec fn chunks(bytes: Seq<u8>, start: int, count: nat, size: nat) -> Seq<Seq<u8>> {
    Seq::new(count, |j: int| bytes.subrange(start + j * size, start + (j + 1) * size))
}

/// The kernel that `bytes` begin with, read part by part: none where the
/// bytes end too soon. Bytes after the kernel are not read.
pub open spec fn read_kernel(bytes: Seq<u8>, p: KernelParameters) -> Option<KernelView> {
    if bytes.len() < kernel_size(p) {
        None
    } else {
        let commitments_start = 1 + p.num_input_records * p.serial_number_size;
        let balance_start = commitments_start + p.num_output_records * p.commitment_size;
        Some(
            KernelView {
                network_id: bytes[0],
                serial_numbers: chunks(bytes, 1, p.num_input_records as nat, p.serial_number_size as nat),
                commitments: chunks(
                    bytes,
                    commitments_start,
                    p.num_output_records as nat,
                    p.commitment_size as nat,
                ),
                value_balance: spec_u64_from_le_bytes(bytes.subrange(balance_start, balance_start + 8)) as i64,
                memo: bytes.subrange(balance_start + 8, balance_start + 8 + p.memo_size),
            },
        )
    }
}

/// What the hash of output serial number nonce `i` is taken of: the
/// record's position among all records of the transaction, as one byte,
/// and then all the serial numbers.
pub open spec fn nonce_input(k: KernelView, p: KernelParameters, i: int) -> Seq<u8> {
    seq![((p.num_input_records + i) % 256) as u8] + flatten(k.serial_numbers)
}

pub open spec fn invalid_kernel_error(k: KernelView) -> DpcError {
    DpcError::InvalidKernel(
        k.network_id,
        k.serial_numbers.len() as usize,
        k.commitments.len() as usize,
    )
}

pub proof fn lemma_flatten_len(xs: Seq<Seq<u8>>, s: nat)
    requires
        forall|j: int| 0 <= j < xs.len() ==> #[trigger] xs[j].len() == s,
    ensures
        flatten(xs).len() == xs.len() * s,
    decreases xs.len(),
{
    if xs.len() > 0 {
        lemma_flatten_len(xs.drop_last(), s);
        assert(xs.len() * s == (xs.len() - 1) * s + s) by (nonlinear_arith);
    }
}

pub proof fn lemma_flatten_index(xs: Seq<Seq<u8>>, s: nat, j: int, t: int)
    requires
        forall|i: int| 0 <= i < xs.len() ==> #[trigger] xs[i].len() == s,
        0 <= j < xs.len(),
        0 <= t < s,
    ensures
        0 <= j * s + t < flatten(xs).len(),
        flatten(xs)[j * s + t] == xs[j][t],
    decreases xs.len(),
{
    let n = xs.len() as int;
    lemma_flatten_len(xs, s);
    lemma_flatten_len(xs.drop_last(), s);
    assert(0 <= j * s) by (nonlinear_arith)
        requires
            0 <= j,
    ;
    if j == n - 1 {
        assert((n - 1) * s == j * s);
    } else {
        lemma_flatten_index(xs.drop_last(), s, j, t);
        assert(j * s + t < (n - 1) * s) by (nonlinear_arith)
            requires
                0 <= j < n - 1,
                0 <= t < s,
        ;
    }
    assert(j * s + t < n * s) by (nonlinear_arith)
        requires
            0 <= j < n,
            0 <= t < s,
    ;
}

/// A byte string of `flatten(xs)`, where every string has `s` bytes, is
/// found at its position times `s`.
pub proof fn lemma_flatten_chunk(xs: Seq<Seq<u8>>, s: nat, j: int)
    requires
        forall|i: int| 0 <= i < xs.len() ==> #[trigger] xs[i].len() == s,
        0 <= j < xs.len(),
    ensures
        (j + 1) * s <= flatten(xs).len(),
        flatten(xs).subrange(j * s, (j + 1) * s) == xs[j],
{
    lemma_flatten_len(xs, s);
    assert((j + 1) * s <= xs.len() * s && (j + 1) * s == j * s + s && 0 <= j * s) by (nonlinear_arith)
        requires
            0 <= j < xs.len(),
    ;
    assert forall|t: int| 0 <= t < s implies #[trigger] flatten(xs).subrange(j * s, (j + 1) * s)[t]
        == xs[j][t] by {
        lemma_flatten_index(xs, s, j, t);
    }
    assert(flatten(xs).subrange(j * s, (j + 1) * s) =~= xs[j]);
}

/// Writing a kernel that fits the network and reading it back gives the
/// same kernel, and the reading takes every byte that was written.
pub proof fn law_kernel_round_trip(k: KernelView, p: KernelParameters)
    requires
        valid_kernel(k, p),
    ensures
        read_kernel(kernel_bytes(k), p) == Some(k),
        kernel_bytes(k).len() == kernel_size(p),
{
    let ss = p.serial_number_size as nat;
    let cs = p.commitment_size as nat;
    let ni = p.num_input_records as int;
    let no = p.num_output_records as int;
    let f1 = flatten(k.serial_numbers);
    let f2 = flatten(k.commitments);
    let le = spec_u64_to_le_bytes(k.value_balance as u64);
    lemma_flatten_len(k.serial_numbers, ss);
    lemma_flatten_len(k.commitments, cs);
    lemma_auto_spec_u64_to_from_le_bytes();
    let bytes = kernel_bytes(k);
    let o2 = 1 + ni * ss;
    let o3 = o2 + no * cs;
    assert(f1.len() == ni * ss);
    assert(f2.len() == no * cs);
    assert(bytes.len() == kernel_size(p));
    let r = read_kernel(bytes, p).unwrap();
    assert(r.network_id == k.network_id);
    assert(bytes.subrange(1, o2) =~= f1);
    assert(bytes.subrange(o2, o3) =~= f2);
    assert forall|j: int| 0 <= j < ni implies #[trigger] r.serial_numbers[j] == k.serial_numbers[j] by {
        lemma_flatten_chunk(k.serial_numbers, ss, j);
        assert(0 <= j * ss && (j + 1) * ss == j * ss + ss) by (nonlinear_arith)
            requires
                0 <= j,
        ;
        assert(bytes.subrange(1 + j * ss, 1 + (j + 1) * ss) =~= bytes.subrange(1, o2).subrange(
            j * ss,
            (j + 1) * ss,
        ));
    }
    assert(r.serial_numbers =~= k.serial_numbers);
    assert forall|j: int| 0 <= j < no implies #[trigger] r.commitments[j] == k.commitments[j] by {
        lemma_flatten_chunk(k.commitments, cs, j);
        assert(0 <= j * cs && (j + 1) * cs == j * cs + cs) by (nonlinear_arith)
            requires
                0 <= j,
        ;
        assert(bytes.subrange(o2 + j * cs, o2 + (j + 1) * cs) =~= bytes.subrange(o2, o3).subrange(
            j * cs,
            (j + 1) * cs,
        ));
    }
    assert(r.commitments =~= k.commitments);
    assert(bytes.subrange(o3, o3 + 8) =~= le);
    let vb = k.value_balance;
    assert(((vb as u64) as i64) == vb) by (bit_vector);
    assert(r.value_balance == k.value_balance);
    assert(bytes.subrange(o3 + 8, o3 + 8 + p.memo_size) =~= k.memo);
}


proof fn lemma_flatten_chunks(bytes: Seq<u8>, start: int, count: nat, size: nat)
    requires
        0 <= start,
        start + count * size <= bytes.len(),
    ensures
        flatten(chunks(bytes, start, count, size)) == bytes.subrange(start, start + count * size),
    decreases count,
{
    let c = chunks(bytes, start, count, size);
    if count == 0 {
        assert(count * size == 0) by (nonlinear_arith)
            requires
                count == 0,
        ;
        assert(bytes.subrange(start, start + count * size) =~= Seq::<u8>::empty());
    } else {
        let m = (count - 1) as nat;
        assert(count * size == m * size + size && 0 <= m * size) by (nonlinear_arith)
            requires
                m == count - 1,
        ;
        lemma_flatten_chunks(bytes, start, m, size);
        assert(c.drop_last() =~= chunks(bytes, start, m, size));
        assert(c.last() == bytes.subrange(start + m * size, start + count * size));
        assert(bytes.subrange(start, start + m * size) + bytes.subrange(start + m * size, start + count * size)
            =~= bytes.subrange(start, start + count * size));
    }
}

/// Reading a kernel takes every part from the bytes: the network id is the
/// first byte whatever network the bytes are read for, and reading for two
/// networks that differ only in their id gives the same kernel.
pub proof fn law_read_takes_network_from_bytes(bytes: Seq<u8>, p: KernelParameters, q: KernelParameters)
    requires
        p.num_input_records == q.num_input_records,
        p.num_output_records == q.num_output_records,
        p.serial_number_size == q.serial_number_size,
        p.commitment_size == q.commitment_size,
        p.memo_size == q.memo_size,
    ensures
        read_kernel(bytes, p) == read_kernel(bytes, q),
        read_kernel(bytes, p) matches Some(k) ==> k.network_id == bytes[0],
{
}

/// Writing back a kernel that was read gives exactly the bytes it was read
/// from; the kernel read fits the network exactly when its first byte is
/// the network's id.
pub proof fn law_read_then_write(bytes: Seq<u8>, p: KernelParameters)
    ensures
        read_kernel(bytes, p) matches Some(k) ==> {
            &&& kernel_bytes(k) == bytes.subrange(0, kernel_size(p))
            &&& valid_kernel(k, p) == (bytes[0] == p.network_id)
        },
{
    match read_kernel(bytes, p) {
        Some(k) => {
            let ni = p.num_input_records as nat;
            let no = p.num_output_records as nat;
            let ss = p.serial_number_size as nat;
            let cs = p.commitment_size as nat;
            assert(0 <= ni * ss && 0 <= no * cs) by (nonlinear_arith);
            let o2: int = (1 + ni * ss) as int;
            let o3: int = o2 + (no * cs) as int;
            lemma_flatten_chunks(bytes, 1, ni, ss);
            lemma_flatten_chunks(bytes, o2, no, cs);
            let s8 = bytes.subrange(o3, o3 + 8);
            let x = spec_u64_from_le_bytes(s8);
            assert(((x as i64) as u64) == x) by (bit_vector);
            lemma_auto_spec_u64_to_from_le_bytes();
            assert(spec_u64_to_le_bytes(spec_u64_from_le_bytes(s8)) == s8);
            assert(kernel_bytes(k) =~= bytes.subrange(0, kernel_size(p)));
            assert forall|j: int| 0 <= j < k.serial_numbers.len() implies #[trigger] k.serial_numbers[j].len() == ss by {
                assert(j * ss + ss == (j + 1) * ss && 0 <= j * ss && (j + 1) * ss <= ni * ss) by (nonlinear_arith)
                    requires
                        0 <= j < ni,
                ;
                assert(k.serial_numbers[j] == bytes.subrange(1 + j * ss, 1 + (j + 1) * ss));
            }
            assert forall|j: int| 0 <= j < k.commitments.len() implies #[trigger] k.commitments[j].len() == cs by {
                assert(j * cs + cs == (j + 1) * cs && 0 <= j * cs && (j + 1) * cs <= no * cs) by (nonlinear_arith)
                    requires
                        0 <= j < no,
                ;
                assert(k.commitments[j] == bytes.subrange(o2 + j * cs, o2 + (j + 1) * cs));
            }
        },
        None => {},
    }
}

/// Appends the byte strings of `parts`, one after the other.
fn write_parts(out: &mut Vec<u8>, parts: &Vec<Vec<u8>>)
    ensures
        final(out)@ == old(out)@ + flatten(byte_strings(parts@)),
{
    let ghost o0 = out@;
    let ghost all = byte_strings(parts@);
    let mut k: usize = 0;
    while k < parts.len()
        invariant
            k <= parts.len(),
            all == byte_strings(parts@),
            out@ == o0 + flatten(all.take(k as int)),
        decreases parts.len() - k,
    {
        let ghost before = out@;
        out.extend_from_slice(parts[k].as_slice());
        proof {
            assert(all.take(k + 1).drop_last() =~= all.take(k as int));
            assert(all[k as int] == parts@[k as int]@);
            assert(out@ =~= before + parts@[k as int]@);
            assert(out@ =~= o0 + flatten(all.take(k + 1)));
        }
        k = k + 1;
    }
    assert(all.take(parts.len() as int) =~= all);
}

/// `count` byte strings of `size` bytes each, read from `start` on.
fn read_chunks(bytes: &[u8], start: usize, count: usize, size: usize) -> (r: Vec<Vec<u8>>)
    requires
        start + count * size <= bytes@.len(),
    ensures
        byte_strings(r@) == chunks(bytes@, start as int, count as nat, size as nat),
{
    let mut r: Vec<Vec<u8>> = Vec::new();
    let blen = bytes.len();
    let mut offset = start;
    let mut j: usize = 0;
    while j < count
        invariant
            start + count * size <= bytes@.len(),
            blen == bytes@.len(),
            j <= count,
            offset == start + j * size,
            r@.len() == j,
            forall|i: int| 0 <= i < j ==> #[trigger] r@[i]@ == bytes@.subrange(start + i * size, start + (i + 1) * size),
        decreases count - j,
    {
        assert(offset + size <= start + count * size && offset + size == start + (j + 1) * size)
            by (nonlinear_arith)
            requires
                offset == start + j * size,
                j < count,
        ;
        let chunk = slice_to_vec(slice_subrange(bytes, offset, offset + size));
        r.push(chunk);
        offset = offset + size;
        j = j + 1;
    }
    assert(byte_strings(r@) =~= chunks(bytes@, start as int, count as nat, size as nat));
    r
}

/// Whether every byte string of `parts` has `size` bytes.
fn all_sized(parts: &Vec<Vec<u8>>, size: usize) -> (r: bool)
    ensures
        r == forall|j: int| 0 <= j < byte_strings(parts@).len() ==> #[trigger] byte_strings(parts@)[j].len() == size,
{
    let mut k: usize = 0;
    while k < parts.len()
        invariant
            k <= parts@.len(),
            forall|j: int| 0 <= j < k ==> #[trigger] byte_strings(parts@)[j].len() == size,
        decreases parts@.len() - k,
    {
        if parts[k].len() != size {
            assert(byte_strings(parts@)[k as int].len() != size);
            return false;
        }
        k = k + 1;
    }
    true
}

impl TransactionKernel {
    /// The kernel fits the network: see `valid_kernel`.
    pub fn is_valid(&self, params: &KernelParameters) -> (r: bool)
        ensures
            r == valid_kernel(self@, *params),
    {
        if !(self.network_id == params.network_id && self.serial_numbers.len() == params.num_input_records
            && self.commitments.len() == params.num_output_records && self.memo.len() == params.memo_size) {
            return false;
        }
        all_sized(&self.serial_numbers, params.serial_number_size)
            && all_sized(&self.commitments, params.commitment_size)
    }

    fn invalid(&self) -> (e: DpcError)
        ensures
            e == invalid_kernel_error(self@),
    {
        DpcError::InvalidKernel(self.network_id, self.serial_numbers.len(), self.commitments.len())
    }

    /// The encoding of the kernel (see `kernel_bytes`), where it fits the
    /// network; else the error that says how it does not.
    pub fn to_bytes_le(&self, params: &KernelParameters) -> (r: Result<Vec<u8>, DpcError>)
        ensures
            match r {
                Ok(bytes) => valid_kernel(self@, *params) && bytes@ == kernel_bytes(self@),
                Err(e) => !valid_kernel(self@, *params) && e == invalid_kernel_error(self@),
            },
    {
        if !self.is_valid(params) {
            return Err(self.invalid());
        }
        let mut out: Vec<u8> = Vec::new();
        out.push(self.network_id);
        write_parts(&mut out, &self.serial_numbers);
        write_parts(&mut out, &self.commitments);
        let balance = u64_to_le_bytes(self.value_balance as u64);
        out.extend_from_slice(balance.as_slice());
        out.extend_from_slice(self.memo.as_slice());
        assert(out@ =~= kernel_bytes(self@));
        Ok(out)
    }

    /// The message that signing the kernel signs: its encoding, where the
    /// kernel fits the network.
    pub fn to_signature_message(&self, params: &KernelParameters) -> (r: Result<Vec<u8>, DpcError>)
        ensures
            match r {
                Ok(bytes) => valid_kernel(self@, *params) && bytes@ == kernel_bytes(self@),
                Err(e) => !valid_kernel(self@, *params) && e == invalid_kernel_error(self@),
            },
    {
        match self.is_valid(params) {
            true => self.to_bytes_le(params),
            false => Err(self.invalid()),
        }
    }

    /// The kernel that `bytes` begin with: see `read_kernel`.
    pub fn from_bytes_le(bytes: &[u8], params: &KernelParameters) -> (r: Result<TransactionKernel, DpcError>)
        requires
            kernel_size(*params) <= usize::MAX,
        ensures
            match read_kernel(bytes@, *params) {
                Some(k) => r matches Ok(kernel) && kernel@ == k,
                None => r == Err::<TransactionKernel, DpcError>(DpcError::UnexpectedEof),
            },
    {
        let ni = params.num_input_records;
        let no = params.num_output_records;
        let ss = params.serial_number_size;
        let cs = params.commitment_size;
        assert(0 <= ni * ss && 0 <= no * cs) by (nonlinear_arith);
        let serial_len = ni * ss;
        let commitment_len = no * cs;
        let commitments_start = 1 + serial_len;
        let balance_start = commitments_start + commitment_len;
        let memo_start = balance_start + 8;
        let total = memo_start + params.memo_size;
        if bytes.len() < total {
            return Err(DpcError::UnexpectedEof);
        }
        let network_id = bytes[0];
        let serial_numbers = read_chunks(bytes, 1, ni, ss);
        let commitments = read_chunks(bytes, commitments_start, no, cs);
        let balance = u64_from_le_bytes(slice_subrange(bytes, balance_start, memo_start));
        let memo = slice_to_vec(slice_subrange(bytes, memo_start, total));
        let kernel = TransactionKernel {
            network_id,
            serial_numbers,
            commitments,
            value_balance: balance as i64,
            memo,
        };
        Ok(kernel)
    }

    /// What the hash of each output serial number nonce is taken of (see
    /// `nonce_input`), where the kernel fits the network.
    pub fn output_serial_number_nonce_inputs(&self, params: &KernelParameters) -> (r: Result<
        Vec<Vec<u8>>,
        DpcError,
    >)
        ensures
            match r {
                Ok(inputs) => {
                    &&& valid_kernel(self@, *params)
                    &&& inputs@.len() == params.num_output_records
                    &&& forall|i: int|
                        0 <= i < inputs@.len() ==> #[trigger] inputs@[i]@ == nonce_input(
                            self@,
                            *params,
                            i,
                        )
                },
                Err(e) => !valid_kernel(self@, *params) && e == invalid_kernel_error(self@),
            },
    {
        if !self.is_valid(params) {
            return Err(self.invalid());
        }
        let mut joint: Vec<u8> = Vec::new();
        write_parts(&mut joint, &self.serial_numbers);
        assert(joint@ =~= flatten(self@.serial_numbers));
        let base = (params.num_input_records % 256) as u8;
        let mut inputs: Vec<Vec<u8>> = Vec::new();
        let mut i: usize = 0;
        while i < params.num_output_records
            invariant
                valid_kernel(self@, *params),
                base == params.num_input_records % 256,
                joint@ == flatten(self@.serial_numbers),
                i <= params.num_output_records,
                inputs@.len() == i,
                forall|j: int| 0 <= j < i ==> #[trigger] inputs@[j]@ == nonce_input(self@, *params, j),
            decreases params.num_output_records - i,
        {
            let position = ((base as usize + i % 256) % 256) as u8;
            proof {
                vstd::arithmetic::div_mod::lemma_add_mod_noop(
                    params.num_input_records as int,
                    i as int,
                    256,
                );
            }
            let mut input: Vec<u8> = Vec::new();
            input.push(position);
            input.extend_from_slice(joint.as_slice());
            assert(input@ =~= nonce_input(self@, *params, i as int));
            inputs.push(input);
            i = i + 1;
        }
        Ok(inputs)
    }
}

} // verus!
