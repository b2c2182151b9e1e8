//! The string and coroutine standard libraries of a Lua runtime: the
//! byte-level string operations with Lua's 1-based, end-relative offsets,
//! the iteration logic of `string.gmatch` and `string.gsub`, the control
//! transfers of the coroutine library, and the registration of both
//! libraries as globals.

use vstd::prelude::*;

pub mod coroutine;
pub mod gsub;
pub mod matching;
pub mod registry;
pub mod string;
pub mod value;

verus! {

} // verus!
