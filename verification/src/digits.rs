//! Decimal rendering and parsing of unsigned integers over character
//! sequences, with a proof that parsing inverts rendering.

use vstd::prelude::*;

verus! {

/// The character for one decimal digit value.
pub open spec fn digit_char(d: nat) -> char {
    ((48 + d) as u8) as char
}

/// Whether a character is a decimal digit.
pub open spec fn is_digit(c: char) -> bool {
    48 <= c as int && c as int <= 57
}

/// The numeric value of a digit character.
pub open spec fn digit_val(c: char) -> nat {
    (c as int - 48) as nat
}

/// The decimal representation of `n`, most significant digit first,
/// with no leading zeros (a single `'0'` for zero).
pub open spec fn spec_digits(n: nat) -> Seq<char>
    decreases n,
{
    if n < 10 {
        seq![digit_char(n)]
    } else {
        spec_digits(n / 10).push(digit_char(n % 10))
    }
}

pub proof fn lemma_spec_digits_are_digits(n: nat)
    ensures
        spec_digits(n).len() >= 1,
        forall|k: int| 0 <= k < spec_digits(n).len() ==> is_digit(#[trigger] spec_digits(n)[k]),
    decreases n,
{
    if n >= 10 {
        lemma_spec_digits_are_digits(n / 10);
    }
}

/// Append the decimal representation of `n` to `out`.
pub fn push_u64_digits(n: u64, out: &mut Vec<char>)
    ensures
        final(out)@ == old(out)@ + spec_digits(n as nat),
    decreases n,
{
    if n < 10 {
        let c = ((48 + n as u8)) as char;
        proof {
            assert(c == digit_char(n as nat));
            assert(old(out)@ + spec_digits(n as nat) =~= old(out)@.push(c));
        }
        out.push(c);
    } else {
        push_u64_digits(n / 10, out);
        let d = (n % 10) as u8;
        let c = (48 + d) as char;
        proof {
            assert(c == digit_char((n % 10) as nat));
            assert(old(out)@ + spec_digits(n as nat) =~= (old(out)@ + spec_digits(
                (n / 10) as nat,
            )).push(c));
        }
        out.push(c);
    }
}

/// First index at or after `i` whose character is not a digit.
pub open spec fn digits_end(s: Seq<char>, i: int) -> int
    decreases s.len() - i,
{
    if 0 <= i && i < s.len() && is_digit(s[i]) {
        digits_end(s, i + 1)
    } else {
        i
    }
}

pub proof fn lemma_digits_end_bounds(s: Seq<char>, i: int)
    requires
        0 <= i <= s.len(),
    ensures
        i <= digits_end(s, i) <= s.len(),
        forall|k: int| i <= k < digits_end(s, i) ==> is_digit(s[k]),
        digits_end(s, i) < s.len() ==> !is_digit(s[digits_end(s, i)]),
    decreases s.len() - i,
{
    if i < s.len() && is_digit(s[i]) {
        lemma_digits_end_bounds(s, i + 1);
    }
}

/// Value of the digit characters of `s` in `[i, j)`, most significant first.
pub open spec fn digits_value(s: Seq<char>, i: int, j: int) -> nat
    decreases j - i,
{
    if i < j {
        digits_value(s, i, j - 1) * 10 + digit_val(s[j - 1])
    } else {
        0
    }
}

/// Parsing the rendered digits of `n`, embedded at position `i` of a longer
/// sequence and followed by a non-digit (or the end), recovers exactly `n`.
pub proof fn lemma_digits_round_trip(s: Seq<char>, i: int, n: nat)
    requires
        0 <= i,
        i + spec_digits(n).len() <= s.len(),
        forall|k: int|
            0 <= k < spec_digits(n).len() ==> s[i + k] == #[trigger] spec_digits(n)[k],
        i + spec_digits(n).len() < s.len() ==> !is_digit(s[i + spec_digits(n).len()]),
    ensures
        digits_end(s, i) == i + spec_digits(n).len(),
        digits_value(s, i, i + spec_digits(n).len()) == n,
    decreases n,
{
    lemma_spec_digits_are_digits(n);
    let len = spec_digits(n).len() as int;
    assert forall|k: int| i <= k < i + len implies is_digit(s[k]) by {
        assert(s[k] == spec_digits(n)[k - i]);
    }
    lemma_digits_end_bounds(s, i);
    lemma_digits_end_stops(s, i, i + len);
    if n < 10 {
        assert(s[i + 0] == spec_digits(n)[0]);
        assert(spec_digits(n)[0] == digit_char(n));
        assert(digits_value(s, i, i + 1) == digits_value(s, i, i) * 10 + digit_val(s[i]));
        assert(digit_val(digit_char(n)) == n);
    } else {
        let m = n / 10;
        let head = spec_digits(m);
        // The digits of n are the digits of n/10 followed by the last digit.
        assert forall|k: int| 0 <= k < head.len() implies s[i + k] == #[trigger] head[k] by {
            assert(spec_digits(n)[k] == head[k]);
        }
        assert(i + head.len() < s.len() ==> is_digit(s[i + head.len()]));
        lemma_digits_round_trip_inner(s, i, m, i + head.len());
        assert(digits_value(s, i, i + head.len()) == m);
        assert(s[i + len - 1] == spec_digits(n)[len - 1]);
        assert(spec_digits(n)[len - 1] == digit_char(n % 10));
        assert(digits_value(s, i, i + len) == m * 10 + digit_val(digit_char(n % 10)));
        assert(digit_val(digit_char(n % 10)) == n % 10);
    }
}

/// As `lemma_digits_round_trip`, but only for the value, with an explicit
/// end position (the following character may be anything).
proof fn lemma_digits_round_trip_inner(s: Seq<char>, i: int, n: nat, j: int)
    requires
        0 <= i,
        j == i + spec_digits(n).len(),
        j <= s.len(),
        forall|k: int|
            0 <= k < spec_digits(n).len() ==> s[i + k] == #[trigger] spec_digits(n)[k],
    ensures
        digits_value(s, i, j) == n,
    decreases n,
{
    lemma_spec_digits_are_digits(n);
    let len = spec_digits(n).len() as int;
    if n < 10 {
        assert(s[i + 0] == spec_digits(n)[0]);
        assert(spec_digits(n)[0] == digit_char(n));
        assert(digits_value(s, i, j) == digits_value(s, i, i) * 10 + digit_val(s[i]));
        assert(digit_val(digit_char(n)) == n);
    } else {
        let m = n / 10;
        let head = spec_digits(m);
        assert forall|k: int| 0 <= k < head.len() implies s[i + k] == #[trigger] head[k] by {
            assert(spec_digits(n)[k] == head[k]);
        }
        lemma_digits_round_trip_inner(s, i, m, i + head.len());
        assert(s[j - 1] == spec_digits(n)[len - 1]);
        assert(spec_digits(n)[len - 1] == digit_char(n % 10));
        assert(digit_val(digit_char(n % 10)) == n % 10);
    }
}

proof fn lemma_digits_end_stops(s: Seq<char>, i: int, j: int)
    requires
        0 <= i <= j <= s.len(),
        forall|k: int| i <= k < j ==> is_digit(s[k]),
        j < s.len() ==> !is_digit(s[j]),
    ensures
        digits_end(s, i) == j,
    decreases j - i,
{
    if i < j {
        lemma_digits_end_stops(s, i + 1, j);
    }
}

/// Parse a run of decimal digits starting at `i`; returns the value and the
/// index after the last digit, or `None` if there is no digit at `i` or the
/// value does not fit in `u64`.
pub fn parse_u64_at(s: &Vec<char>, i: usize) -> (r: Option<(u64, usize)>)
    requires
        i <= s@.len(),
    ensures
        match r {
            Some((n, j)) => {
                &&& j == digits_end(s@, i as int)
                &&& i < j <= s@.len()
                &&& n as nat == digits_value(s@, i as int, j as int)
            },
            None => i == digits_end(s@, i as int) || digits_value(
                s@,
                i as int,
                digits_end(s@, i as int),
            ) > u64::MAX,
        },
{
    proof {
        lemma_digits_end_bounds(s@, i as int);
    }
    let ghost end = digits_end(s@, i as int);
    if i == s.len() || !(s[i] >= '0' && s[i] <= '9') {
        return None;
    }
    let mut j: usize = i;
    let mut val: u64 = 0;
    while j < s.len() && s[j] >= '0' && s[j] <= '9'
        invariant
            i <= j <= s@.len(),
            j <= end <= s@.len(),
            end == digits_end(s@, i as int),
            forall|k: int| i as int <= k < end ==> is_digit(s@[k]),
            end < s@.len() ==> !is_digit(s@[end]),
            j < s@.len() && is_digit(s@[j as int]) ==> j < end,
            val as nat == digits_value(s@, i as int, j as int),
        decreases s@.len() - j,
    {
        let d = (s[j] as u32 - 48) as u64;
        proof {
            assert(d == digit_val(s@[j as int]));
        }
        if val > (u64::MAX - d) / 10 {
            proof {
                assert(digits_value(s@, i as int, j + 1) == val as nat * 10 + d as nat);
                assert(digits_value(s@, i as int, j + 1) > u64::MAX) by (nonlinear_arith)
                    requires
                        digits_value(s@, i as int, j + 1) == val as nat * 10 + d as nat,
                        val > (u64::MAX - d) / 10,
                        d < 10,
                {}
                lemma_digits_value_monotone(s@, i as int, j + 1, end);
            }
            return None;
        }
        proof {
            assert(val * 10 + d <= u64::MAX) by (nonlinear_arith)
                requires
                    val <= (u64::MAX - d) / 10,
                    d < 10,
            {}
        }
        val = val * 10 + d;
        j = j + 1;
    }
    proof {
        lemma_digits_end_stops(s@, i as int, j as int);
    }
    Some((val, j))
}

/// If the digit run continues past `j`, the full value is at least the value
/// up to `j`.
proof fn lemma_digits_value_monotone(s: Seq<char>, i: int, j: int, end: int)
    requires
        0 <= i <= j <= end <= s.len(),
        forall|k: int| i <= k < end ==> is_digit(s[k]),
    ensures
        digits_value(s, i, end) >= digits_value(s, i, j),
    decreases end - j,
{
    if j < end {
        lemma_digits_value_monotone(s, i, j + 1, end);
        assert(digits_value(s, i, j + 1) == digits_value(s, i, j) * 10 + digit_val(s[j]));
        assert(digits_value(s, i, j) * 10 >= digits_value(s, i, j)) by (nonlinear_arith)
            requires
                digits_value(s, i, j) >= 0,
        {}
    }
}

} // verus!
