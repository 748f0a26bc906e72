//! Randomness at the edge of the protocol: uniform sampling of ephemeral
//! secrets and challenges, and generation of random identifiers from a fixed
//! alphanumeric alphabet.

use vstd::prelude::*;
use rand::Rng;

verus! {

/// A byte of the identifier alphabet: an ASCII digit or letter.
pub open spec fn is_id_byte(b: u8) -> bool {
    ||| 48 <= b <= 57
    ||| 65 <= b <= 90
    ||| 97 <= b <= 122
}

/// A character of the identifier alphabet: a digit or letter.
pub open spec fn is_id_char(c: char) -> bool {
    ||| 48 <= c as int <= 57
    ||| 65 <= c as int <= 90
    ||| 97 <= c as int <= 122
}

/// Relies on `rand::Rng::gen_range` over `ThreadRng` (a cryptographically
/// secure generator): the sample is uniformly distributed over `[0, bound)`,
/// drawn by widening-multiply rejection, so without modulo bias.
#[verifier::external_body]
pub fn sample_below(bound: u64) -> (r: u64)
    requires
        bound > 0,
    ensures
        r < bound,
{
    rand::thread_rng().gen_range(0..bound)
}

/// Relies on `String::from_utf8`: ASCII bytes decode to the string of the
/// same length whose characters carry the same code points.
#[verifier::external_body]
fn ascii_to_string(bytes: Vec<u8>) -> (r: String)
    requires
        forall|i: int| 0 <= i < bytes@.len() ==> bytes@[i] < 128,
    ensures
        r@.len() == bytes@.len(),
        forall|i: int| 0 <= i < r@.len() ==> #[trigger] r@[i] as int == bytes@[i] as int,
{
    match String::from_utf8(bytes) {
        Ok(s) => s,
        Err(_) => String::new(),
    }
}

/// The byte of the identifier alphabet at position `idx`, counting the
/// digits first, then the lower-case letters, then the upper-case ones.
fn id_byte(idx: u64) -> (b: u8)
    requires
        idx < 62,
    ensures
        is_id_byte(b),
{
    if idx < 10 {
        (48 + idx) as u8
    } else if idx < 36 {
        (97 + (idx - 10)) as u8
    } else {
        (65 + (idx - 36)) as u8
    }
}

/// A fresh random identifier of `length` alphanumeric characters. No
/// uniqueness check is made: callers treat the collision probability as
/// negligible but nonzero.
pub fn random_identifier(length: usize) -> (r: String)
    ensures
        r@.len() == length as int,
        forall|i: int| 0 <= i < r@.len() ==> is_id_char(#[trigger] r@[i]),
{
    let mut bytes: Vec<u8> = Vec::new();
    let mut j: usize = 0;
    while j < length
        invariant
            j <= length,
            bytes@.len() == j,
            forall|i: int| 0 <= i < bytes@.len() ==> is_id_byte(#[trigger] bytes@[i]),
        decreases length - j,
    {
        let idx = sample_below(62);
        bytes.push(id_byte(idx));
        j = j + 1;
    }
    ascii_to_string(bytes)
}

} // verus!
