//! Terminal identifiers: generation of fresh ids and validation.
//!
//! A terminal id is the fixed prefix `term-` followed by twelve ASCII
//! alphanumeric characters.

use vstd::prelude::*;

verus! {

use crate::strutil::chars_of;
use crate::strutil::string_of;

/// Whether a character is ASCII alphanumeric.
pub open spec fn is_alnum(c: char) -> bool {
    (48 <= c as int && c as int <= 57) || (65 <= c as int && c as int <= 90) || (97 <= c as int
        && c as int <= 122)
}

/// A valid terminal id: `term-` followed by twelve alphanumeric characters.
pub open spec fn spec_valid_terminal_id(s: Seq<char>) -> bool {
    &&& s.len() == 17
    &&& s[0] == 't'
    &&& s[1] == 'e'
    &&& s[2] == 'r'
    &&& s[3] == 'm'
    &&& s[4] == '-'
    &&& forall|i: int| 5 <= i < 17 ==> is_alnum(#[trigger] s[i])
}

/// Check whether a string is a valid terminal id.
pub fn is_valid_terminal_id(id: &str) -> (r: bool)
    ensures
        r == spec_valid_terminal_id(id@),
{
    let cs = chars_of(id);
    if cs.len() != 17 {
        return false;
    }
    if !(cs[0] == 't' && cs[1] == 'e' && cs[2] == 'r' && cs[3] == 'm' && cs[4] == '-') {
        return false;
    }
    let mut i: usize = 5;
    while i < 17
        invariant
            5 <= i <= 17,
            cs@ == id@,
            cs@.len() == 17,
            forall|k: int| 5 <= k < i ==> is_alnum(#[trigger] cs@[k]),
        decreases 17 - i,
    {
        let c = cs[i];
        let ok = (c >= '0' && c <= '9') || (c >= 'A' && c <= 'Z') || (c >= 'a' && c <= 'z');
        if !ok {
            return false;
        }
        i = i + 1;
    }
    true
}

/// The alphabet used for id suffixes: `A`-`Z`, `a`-`z`, `0`-`9`.
fn id_alphabet() -> (r: Vec<char>)
    ensures
        r@.len() == 62,
        forall|i: int| 0 <= i < r@.len() ==> is_alnum(#[trigger] r@[i]) && (r@[i] as int) < 128,
{
    let mut r: Vec<char> = Vec::new();
    let mut b: u8 = 65;
    while b < 91
        invariant
            65 <= b <= 91,
            r@.len() == b - 65,
            forall|i: int| 0 <= i < r@.len() ==> is_alnum(#[trigger] r@[i]) && (r@[i] as int) < 128,
        decreases (91 - b) as int,
    {
        r.push(b as char);
        b = b + 1;
    }
    let mut b: u8 = 97;
    while b < 123
        invariant
            97 <= b <= 123,
            r@.len() == 26 + b - 97,
            forall|i: int| 0 <= i < r@.len() ==> is_alnum(#[trigger] r@[i]) && (r@[i] as int) < 128,
        decreases (123 - b) as int,
    {
        r.push(b as char);
        b = b + 1;
    }
    let mut b: u8 = 48;
    while b < 58
        invariant
            48 <= b <= 58,
            r@.len() == 52 + b - 48,
            forall|i: int| 0 <= i < r@.len() ==> is_alnum(#[trigger] r@[i]) && (r@[i] as int) < 128,
        decreases (58 - b) as int,
    {
        r.push(b as char);
        b = b + 1;
    }
    r
}

/// Relies on nanoid::format, driven by nanoid::rngs::default: the result has
/// exactly `size` characters, each drawn from `alphabet`. A size of zero is
/// excluded: on it the generator's draw-and-retry loop would never reach
/// its length check.
#[verifier::external_body]
fn random_suffix(alphabet: &Vec<char>, size: usize) -> (r: String)
    requires
        1 <= alphabet@.len() <= 255,
        forall|i: int| 0 <= i < alphabet@.len() ==> ((#[trigger] alphabet@[i]) as int) < 128,
        1 <= size < 1000,
    ensures
        r@.len() == size as nat,
        forall|i: int| 0 <= i < r@.len() ==> alphabet@.contains(#[trigger] r@[i]),
{
    nanoid::format(nanoid::rngs::default, alphabet.as_slice(), size)
}

/// Generate a fresh terminal id. Randomness comes from the id alphabet
/// suffix; the result is always a valid terminal id.
pub fn new_terminal_id() -> (r: String)
    ensures
        spec_valid_terminal_id(r@),
{
    let alphabet = id_alphabet();
    let suffix = random_suffix(&alphabet, 12);
    let tail = chars_of(suffix.as_str());
    let mut cs: Vec<char> = Vec::new();
    cs.push('t');
    cs.push('e');
    cs.push('r');
    cs.push('m');
    cs.push('-');
    let mut i: usize = 0;
    while i < tail.len()
        invariant
            i <= tail@.len(),
            tail@.len() == 12,
            cs@.len() == 5 + i,
            cs@[0] == 't' && cs@[1] == 'e' && cs@[2] == 'r' && cs@[3] == 'm' && cs@[4] == '-',
            forall|k: int| 5 <= k < cs@.len() ==> is_alnum(#[trigger] cs@[k]),
            forall|k: int| 0 <= k < tail@.len() ==> alphabet@.contains(#[trigger] tail@[k]),
            forall|k: int|
                0 <= k < alphabet@.len() ==> is_alnum(#[trigger] alphabet@[k]),
        decreases tail@.len() - i,
    {
        let c = tail[i];
        proof {
            assert(alphabet@.contains(tail@[i as int]));
            let w = choose|w: int| 0 <= w < alphabet@.len() && alphabet@[w] == tail@[i as int];
            assert(is_alnum(alphabet@[w]));
        }
        cs.push(c);
        i = i + 1;
    }
    string_of(&cs)
}

} // verus!
