//! An interpreter core for a terse, tacit array language: a token-level
//! parser for value and function expressions, a dynamically typed value
//! model with exact saturating integers and filled lists, and an adverb
//! engine (each, scan, reduce, power, until, stencil and friends).
use vstd::prelude::*;

pub mod ast;
pub mod adverb;
pub mod env;
pub mod eval;
pub mod intrn;
pub mod laws;
pub mod model;
pub mod outside;
pub mod parse;
pub mod token;
pub mod val;

verus! {

/// Saturating addition on 64-bit integers: the sum clamped to the
/// representable range.
pub open spec fn sat_add(a: int, b: int) -> int {
    if a + b > i64::MAX {
        i64::MAX as int
    } else if a + b < i64::MIN {
        i64::MIN as int
    } else {
        a + b
    }
}

/// Exact saturating addition, the scalar arithmetic rule of the language.
pub fn add_sat(a: i64, b: i64) -> (r: i64)
    ensures
        r == sat_add(a as int, b as int),
{
    let wide: i128 = a as i128 + b as i128;
    if wide > i64::MAX as i128 {
        i64::MAX
    } else if wide < i64::MIN as i128 {
        i64::MIN
    } else {
        wide as i64
    }
}

} // verus!
