//! Query parameter normalization: raw, possibly missing or invalid string
//! inputs become validated integer parameters with defaults and clamping.

use crate::digits::{parse_i32, parse_i32_spec};
use vstd::prelude::*;

verus! {

/// The page number a raw query value normalizes to: absent or unparseable
/// input falls back to 0; a parsed value is floored at 0.
pub open spec fn spec_page_value(raw: Option<Seq<char>>) -> int {
    match raw {
        Option::None => 0,
        Option::Some(s) => match parse_i32_spec(s) {
            Option::None => 0,
            Option::Some(v) => if v < 0 {
                0
            } else {
                v
            },
        },
    }
}

/// The page size a raw query value normalizes to: absent or unparseable
/// input falls back to 250; a parsed value is clamped to [1, 1000].
pub open spec fn spec_page_size_value(raw: Option<Seq<char>>) -> int {
    match raw {
        Option::None => 250,
        Option::Some(s) => match parse_i32_spec(s) {
            Option::None => 250,
            Option::Some(v) => if v < 1 {
                1
            } else if v > 1000 {
                1000
            } else {
                v
            },
        },
    }
}

/// Normalizes a raw `page` query value; never fails.
pub fn page_or_default(raw: Option<&str>) -> (r: i32)
    ensures
        r as int == spec_page_value(raw.deep_view()),
        r >= 0,
{
    match raw {
        Option::None => 0,
        Option::Some(s) => match parse_i32(s) {
            Option::None => 0,
            Option::Some(v) => if v < 0 {
                0
            } else {
                v
            },
        },
    }
}

/// Normalizes a raw page-size query value; never fails.
pub fn page_size_or_default(raw: Option<&str>) -> (r: i32)
    ensures
        r as int == spec_page_size_value(raw.deep_view()),
        1 <= r <= 1000,
{
    match raw {
        Option::None => 250,
        Option::Some(s) => match parse_i32(s) {
            Option::None => 250,
            Option::Some(v) => if v < 1 {
                1
            } else if v > 1000 {
                1000
            } else {
                v
            },
        },
    }
}

} // verus!
