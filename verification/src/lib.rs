//! The state that the VRL compiler keeps of types, and the queries that it types and a program
//! runs: what is known of variables and of the event, merged where branches meet, and the values
//! that a path finds in them.
use vstd::prelude::*;

pub mod table;
pub mod text;
pub mod path;
pub mod value_regex;
pub mod value;
pub mod kind;
pub mod compiler;

verus! {

} // verus!
