//! Parse status codes of the bounded transfer grammar.

use vstd::prelude::*;

verus! {

pub const OK: i64 = 0;
pub const UNSUPPORTED_VERB: i64 = 1;
pub const MISSING_FIELD: i64 = 2;
pub const MALFORMED_QUANTITY: i64 = 3;
pub const BAD_SHAPE: i64 = 4;
pub const EMPTY: i64 = 5;

} // verus!
