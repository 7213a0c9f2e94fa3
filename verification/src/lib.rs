//! Decision core of a parallel test runner: discovery parsing, scheduling,
//! retries, image caching, history statistics and configuration rules.

use vstd::prelude::*;

pub mod bundled;
pub mod cache;
pub mod checkpoint;
pub mod config;
pub mod connector;
pub mod discovery;
pub mod executor;
pub mod framework;
pub mod git;
pub mod git_patch;
pub mod history;
pub mod image_cache;
pub mod orchestrator;
pub mod order;
pub mod paths;
pub mod patterns;
pub mod provider;
pub mod report;
pub mod run;
pub mod shell;
pub mod strmap;
pub mod text;
pub mod xml;

verus! {

/// The number of characters of the base62 alphabet.
pub const BASE62: u32 = 62;

/// The character of a base62 digit: digits, then capitals, then small letters.
pub open spec fn base62_char(d: u32) -> char {
    if d < 10 {
        (0x30 + d) as char
    } else if d < 36 {
        (0x41 + (d - 10)) as char
    } else {
        (0x61 + (d - 36)) as char
    }
}

/// A character of the base62 alphabet.
pub open spec fn is_base62(c: char) -> bool {
    ('0' <= c && c <= '9') || ('A' <= c && c <= 'Z') || ('a' <= c && c <= 'z')
}

/// The characters of base62 digits.
pub open spec fn base62(digits: Seq<u32>) -> Seq<char> {
    Seq::new(digits.len(), |i: int| base62_char(digits[i]))
}

/// `rand::random_range` picks a number of a range that is not empty.
#[verifier::external_body]
fn random_below(bound: u32) -> (r: u32)
    requires
        bound > 0,
    ensures
        r < bound,
{
    rand::random_range(0..bound)
}

/// The text of base62 digits.
pub fn base62_text(digits: &Vec<u32>) -> (r: String)
    requires
        forall|i: int| 0 <= i < digits@.len() ==> #[trigger] digits@[i] < BASE62,
    ensures
        r@ == base62(digits@),
{
    let mut s = String::new();
    let mut i: usize = 0;
    while i < digits.len()
        invariant
            0 <= i <= digits@.len(),
            forall|k: int| 0 <= k < digits@.len() ==> #[trigger] digits@[k] < BASE62,
            s@ == base62(digits@.take(i as int)),
        decreases digits@.len() - i,
    {
        let d: u8 = digits[i] as u8;
        let c: char = if d < 10 {
            (0x30 + d) as char
        } else if d < 36 {
            (0x41 + (d - 10)) as char
        } else {
            (0x61 + (d - 36)) as char
        };
        s.push(c);
        proof {
            assert(c == base62_char(digits@[i as int]));
            assert(s@ =~= base62(digits@.take(i + 1)));
        }
        i = i + 1;
    }
    proof {
        assert(digits@.take(digits@.len() as int) =~= digits@);
    }
    s
}

/// Base62 text is made of characters of the base62 alphabet.
pub proof fn base62_alphabet(digits: Seq<u32>)
    requires
        forall|i: int| 0 <= i < digits.len() ==> #[trigger] digits[i] < BASE62,
    ensures
        forall|i: int| 0 <= i < base62(digits).len() ==> is_base62(#[trigger] base62(digits)[i]),
{
    assert forall|i: int| 0 <= i < base62(digits).len() implies is_base62(
        #[trigger] base62(digits)[i],
    ) by {
        assert(digits[i] < BASE62);
    }
}

/// Generates a 4-character base62 run ID for correlating test results.
pub fn generate_run_id() -> (r: String)
    ensures
        r@.len() == 4,
        forall|i: int| 0 <= i < r@.len() ==> is_base62(#[trigger] r@[i]),
{
    let mut digits: Vec<u32> = Vec::new();
    while digits.len() < 4
        invariant
            digits@.len() <= 4,
            forall|k: int| 0 <= k < digits@.len() ==> #[trigger] digits@[k] < BASE62,
        decreases 4 - digits@.len(),
    {
        digits.push(random_below(BASE62));
    }
    proof {
        base62_alphabet(digits@);
    }
    base62_text(&digits)
}

} // verus!
