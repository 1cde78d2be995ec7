//! Debug information for circuit programs, the step debugger that walks
//! them, and the transaction kernel that a signature covers.

pub mod circuit;
pub mod debugger;
pub mod decimal;
pub mod debugdata;
pub mod entries;
pub mod frames;
pub mod function;
pub mod group;
pub mod index_map;
pub mod instruction;
pub mod ir;
pub mod kernel;
pub mod resolve;
pub mod value;
pub mod variable;
