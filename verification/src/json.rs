//! Canonical JSON text fragments over character sequences.
//!
//! The control protocol and the snapshot file are line-delimited JSON. This
//! module renders and parses the primitive pieces — string literals with
//! escapes, unsigned numbers, fixed literal text — and proves that parsing
//! inverts rendering. The renderer emits one canonical form: no extra
//! whitespace, keys in a fixed order, and `\u00XX` escapes only for control
//! characters; the parser accepts exactly that form.

use vstd::prelude::*;

verus! {

use crate::digits::digit_char;
use crate::digits::digits_end;
use crate::digits::digits_value;
use crate::digits::is_digit;
use crate::digits::lemma_digits_round_trip;
use crate::digits::parse_u64_at;
use crate::digits::push_u64_digits;
use crate::digits::spec_digits;

/// Lower-case hex digit character for a value below 16.
pub open spec fn hex_digit(d: int) -> char {
    if d < 10 {
        digit_char(d as nat)
    } else {
        ((87 + d) as u8) as char
    }
}

/// Whether a character is a lower-case hex digit.
pub open spec fn is_hex(c: char) -> bool {
    is_digit(c) || (97 <= c as int && c as int <= 102)
}

/// Value of a lower-case hex digit character.
pub open spec fn hex_val(c: char) -> int {
    if is_digit(c) {
        c as int - 48
    } else {
        c as int - 87
    }
}

/// The escape sequence (or the character itself) used inside a JSON string.
pub open spec fn esc_char(c: char) -> Seq<char> {
    if c == '"' {
        seq!['\\', '"']
    } else if c == '\\' {
        seq!['\\', '\\']
    } else if c == '\n' {
        seq!['\\', 'n']
    } else if c == '\r' {
        seq!['\\', 'r']
    } else if c == '\t' {
        seq!['\\', 't']
    } else if 0 <= c as int && (c as int) < 0x20 {
        seq!['\\', 'u', '0', '0', hex_digit(c as int / 16), hex_digit(c as int % 16)]
    } else {
        seq![c]
    }
}

/// The body of a JSON string literal: every character escaped as needed.
pub open spec fn emit_str_body(t: Seq<char>) -> Seq<char>
    decreases t.len(),
{
    if t.len() == 0 {
        Seq::empty()
    } else {
        esc_char(t[0]) + emit_str_body(t.drop_first())
    }
}

/// A JSON string literal with its quotes.
pub open spec fn emit_string(t: Seq<char>) -> Seq<char> {
    seq!['"'] + emit_str_body(t) + seq!['"']
}

pub proof fn lemma_emit_str_body_snoc(t: Seq<char>, c: char)
    ensures
        emit_str_body(t.push(c)) == emit_str_body(t) + esc_char(c),
    decreases t.len(),
{
    if t.len() == 0 {
        assert(t.push(c)[0] == c);
        assert(t.push(c).drop_first() =~= Seq::<char>::empty());
        assert(emit_str_body(Seq::<char>::empty()) == Seq::<char>::empty());
        assert(emit_str_body(t.push(c)) =~= esc_char(c) + Seq::<char>::empty());
        assert(esc_char(c) + Seq::<char>::empty() =~= esc_char(c));
        assert(emit_str_body(t) + esc_char(c) =~= esc_char(c));
    } else {
        assert(t.push(c)[0] == t[0]);
        assert(t.push(c).drop_first() =~= t.drop_first().push(c));
        lemma_emit_str_body_snoc(t.drop_first(), c);
        assert(emit_str_body(t.push(c)) =~= emit_str_body(t) + esc_char(c));
    }
}

/// Parse the body of a JSON string literal, starting just after the opening
/// quote; the returned index is just after the closing quote.
pub open spec fn sp_str_body(s: Seq<char>, i: int) -> Option<(Seq<char>, int)>
    decreases s.len() - i,
{
    if i < 0 || i >= s.len() {
        None
    } else if s[i] == '"' {
        Some((Seq::empty(), i + 1))
    } else if s[i] == '\\' {
        if i + 1 >= s.len() {
            None
        } else {
            let e = s[i + 1];
            if e == '"' || e == '\\' {
                sp_cons(e, sp_str_body(s, i + 2))
            } else if e == 'n' {
                sp_cons('\n', sp_str_body(s, i + 2))
            } else if e == 'r' {
                sp_cons('\r', sp_str_body(s, i + 2))
            } else if e == 't' {
                sp_cons('\t', sp_str_body(s, i + 2))
            } else if e == 'u' {
                if i + 6 <= s.len() && s[i + 2] == '0' && s[i + 3] == '0' && is_hex(s[i + 4])
                    && is_hex(s[i + 5]) && hex_val(s[i + 4]) * 16 + hex_val(s[i + 5]) < 0x20 {
                    sp_cons(
                        ((hex_val(s[i + 4]) * 16 + hex_val(s[i + 5])) as u8) as char,
                        sp_str_body(s, i + 6),
                    )
                } else {
                    None
                }
            } else {
                None
            }
        }
    } else if 0 <= s[i] as int && (s[i] as int) < 0x20 {
        None
    } else {
        sp_cons(s[i], sp_str_body(s, i + 1))
    }
}

/// Prepend a character to a successful string-body parse.
pub open spec fn sp_cons(c: char, rest: Option<(Seq<char>, int)>) -> Option<(Seq<char>, int)> {
    match rest {
        Some((t, j)) => Some((seq![c] + t, j)),
        None => None,
    }
}

/// A JSON string literal with its quotes, parsed from `i`.
pub open spec fn sp_string(s: Seq<char>, i: int) -> Option<(Seq<char>, int)> {
    if 0 <= i && i < s.len() && s[i] == '"' {
        sp_str_body(s, i + 1)
    } else {
        None
    }
}

/// Parsing an escaped string body embedded in `s`, followed by the closing
/// quote, recovers exactly the original characters.
pub proof fn lemma_str_body_round_trip(t: Seq<char>, s: Seq<char>, i: int)
    requires
        0 <= i,
        i + emit_str_body(t).len() + 1 <= s.len(),
        forall|k: int|
            0 <= k < emit_str_body(t).len() ==> s[i + k] == #[trigger] emit_str_body(t)[k],
        s[i + emit_str_body(t).len()] == '"',
    ensures
        sp_str_body(s, i) == Some((t, i + emit_str_body(t).len() + 1)),
    decreases t.len(),
{
    if t.len() == 0 {
        assert(s[i] == '"');
    } else {
        let c = t[0];
        let rest = t.drop_first();
        let e = esc_char(c);
        let tail = emit_str_body(rest);
        assert(emit_str_body(t) == e + tail);
        assert forall|k: int| 0 <= k < e.len() implies s[i + k] == e[k] by {
            assert(emit_str_body(t)[k] == e[k]);
        }
        assert forall|k: int| 0 <= k < tail.len() implies s[i + e.len() + k] == #[trigger] tail[k]
            by {
            assert(emit_str_body(t)[e.len() + k] == tail[k]);
        }
        assert(s[i + 0] == e[0]);
        if e.len() == 2 {
            assert(s[i + 1] == e[1]);
        }
        if e.len() == 6 {
            assert(s[i + 1] == e[1]);
            assert(s[i + 2] == e[2]);
            assert(s[i + 3] == e[3]);
            assert(s[i + 4] == e[4]);
            assert(s[i + 5] == e[5]);
        }
        lemma_str_body_round_trip(rest, s, i + e.len());
        let after = sp_str_body(s, i + e.len());
        assert(after == Some((rest, i + emit_str_body(t).len() + 1)));
        if c == '"' || c == '\\' {
            assert(s[i] == '\\' && s[i + 1] == c);
            assert(sp_str_body(s, i) == sp_cons(c, sp_str_body(s, i + 2)));
            assert(seq![c] + rest =~= t);
        } else if c == '\n' {
            assert(s[i] == '\\' && s[i + 1] == 'n');
            assert(seq![c] + rest =~= t);
        } else if c == '\r' {
            assert(s[i] == '\\' && s[i + 1] == 'r');
            assert(seq![c] + rest =~= t);
        } else if c == '\t' {
            assert(s[i] == '\\' && s[i + 1] == 't');
            assert(seq![c] + rest =~= t);
        } else if 0 <= c as int && (c as int) < 0x20 {
            assert(s[i] == '\\' && s[i + 1] == 'u' && s[i + 2] == '0' && s[i + 3] == '0');
            let h1 = hex_digit(c as int / 16);
            let h2 = hex_digit(c as int % 16);
            assert(s[i + 4] == h1 && s[i + 5] == h2);
            lemma_hex_digit_val(c as int / 16);
            lemma_hex_digit_val(c as int % 16);
            assert(hex_val(h1) * 16 + hex_val(h2) == c as int);
            assert((((c as int) as u8) as char) == c);
            assert(seq![c] + rest =~= t);
        } else {
            assert(s[i] == c);
            assert(c != '"' && c != '\\');
            assert(sp_str_body(s, i) == sp_cons(c, sp_str_body(s, i + 1)));
            assert(seq![c] + rest =~= t);
        }
    }
}

pub proof fn lemma_hex_digit_val(d: int)
    requires
        0 <= d < 16,
    ensures
        is_hex(hex_digit(d)),
        hex_val(hex_digit(d)) == d,
{
}

/// Append a JSON string literal (with quotes) for `t` to `out`.
pub fn push_json_string(t: &Vec<char>, out: &mut Vec<char>)
    ensures
        final(out)@ == old(out)@ + emit_string(t@),
{
    out.push('"');
    let ghost base = out@;
    let mut k: usize = 0;
    proof {
        assert(emit_str_body(t@.take(0)) =~= Seq::<char>::empty());
        assert(out@ =~= base + emit_str_body(t@.take(0)));
    }
    while k < t.len()
        invariant
            k <= t@.len(),
            out@ == base + emit_str_body(t@.take(k as int)),
        decreases t@.len() - k,
    {
        let c = t[k];
        proof {
            lemma_emit_str_body_snoc(t@.take(k as int), c);
            assert(t@.take(k + 1) =~= t@.take(k as int).push(c));
        }
        if c == '"' {
            out.push('\\');
            out.push('"');
        } else if c == '\\' {
            out.push('\\');
            out.push('\\');
        } else if c == '\n' {
            out.push('\\');
            out.push('n');
        } else if c == '\r' {
            out.push('\\');
            out.push('r');
        } else if c == '\t' {
            out.push('\\');
            out.push('t');
        } else {
            let zero = 0u8 as char;
            let space = 32u8 as char;
            if c >= zero && c < space {
                let v = c as u32;
                proof {
                    assert(v as int == c as int);
                }
                out.push('\\');
                out.push('u');
                out.push('0');
                out.push('0');
                let hi = (v / 16) as u8;
                let lo = (v % 16) as u8;
                let hic = if hi < 10 {
                    (48 + hi) as char
                } else {
                    (87 + hi) as char
                };
                let loc = if lo < 10 {
                    (48 + lo) as char
                } else {
                    (87 + lo) as char
                };
                out.push(hic);
                out.push(loc);
                proof {
                    assert(hi as int == c as int / 16);
                    assert(lo as int == c as int % 16);
                    assert(hic == hex_digit(c as int / 16));
                    assert(loc == hex_digit(c as int % 16));
                }
            } else {
                out.push(c);
            }
        }
        proof {
            assert(out@ =~= base + emit_str_body(t@.take(k + 1)));
        }
        k = k + 1;
    }
    out.push('"');
    proof {
        assert(t@.take(t@.len() as int) =~= t@);
        assert(out@ =~= old(out)@ + emit_string(t@));
    }
}

/// Parse a JSON string literal at `i`; on success return its unescaped
/// content and the index just after the closing quote.
pub fn parse_json_string(s: &Vec<char>, i: usize) -> (r: Option<(Vec<char>, usize)>)
    ensures
        match r {
            Some((v, j)) => sp_string(s@, i as int) == Some((v@, j as int)) && i < j <= s@.len(),
            None => sp_string(s@, i as int) is None,
        },
{
    if i >= s.len() || s[i] != '"' {
        return None;
    }
    let ghost start = i + 1;
    let mut cur: usize = i + 1;
    let mut acc: Vec<char> = Vec::new();
    proof {
        match sp_str_body(s@, start) {
            Some((t, j)) => {
                assert(Seq::<char>::empty() + t =~= t);
            },
            None => {},
        }
    }
    loop
        invariant
            i < s@.len(),
            sp_string(s@, i as int) == sp_str_body(s@, start as int),
            start == i + 1,
            i + 1 <= cur <= s@.len(),
            (match sp_str_body(s@, cur as int) {
                Some((t, j)) => sp_str_body(s@, start) == Some((acc@ + t, j)),
                None => sp_str_body(s@, start) is None,
            }),
        decreases s@.len() - cur,
    {
        if cur >= s.len() {
            proof {
                assert(sp_str_body(s@, cur as int) is None);
            }
            return None;
        }
        let c = s[cur];
        if c == '"' {
            proof {
                assert(sp_str_body(s@, cur as int) == Some((Seq::<char>::empty(), cur + 1)));
                assert(acc@ + Seq::<char>::empty() =~= acc@);
            }
            return Some((acc, cur + 1));
        } else if c == '\\' {
            if cur + 1 >= s.len() {
                proof {
                    assert(sp_str_body(s@, cur as int) is None);
                }
                return None;
            }
            let e = s[cur + 1];
            if e == '"' || e == '\\' {
                proof {
                    assert(sp_str_body(s@, cur as int) == sp_cons(e, sp_str_body(s@, cur + 2)));
                    lemma_acc_shift(acc@, e, sp_str_body(s@, cur + 2));
                }
                acc.push(e);
                cur = cur + 2;
            } else if e == 'n' {
                proof {
                    assert(sp_str_body(s@, cur as int) == sp_cons('\n', sp_str_body(s@, cur + 2)));
                    lemma_acc_shift(acc@, '\n', sp_str_body(s@, cur + 2));
                }
                acc.push('\n');
                cur = cur + 2;
            } else if e == 'r' {
                proof {
                    assert(sp_str_body(s@, cur as int) == sp_cons('\r', sp_str_body(s@, cur + 2)));
                    lemma_acc_shift(acc@, '\r', sp_str_body(s@, cur + 2));
                }
                acc.push('\r');
                cur = cur + 2;
            } else if e == 't' {
                proof {
                    assert(sp_str_body(s@, cur as int) == sp_cons('\t', sp_str_body(s@, cur + 2)));
                    lemma_acc_shift(acc@, '\t', sp_str_body(s@, cur + 2));
                }
                acc.push('\t');
                cur = cur + 2;
            } else if e == 'u' {
                if s.len() - cur < 6 {
                    proof {
                        assert(sp_str_body(s@, cur as int) is None);
                    }
                    return None;
                }
                let d0 = s[cur + 2];
                let d1 = s[cur + 3];
                let h1 = s[cur + 4];
                let h2 = s[cur + 5];
                let h1ok = (h1 >= '0' && h1 <= '9') || (h1 >= 'a' && h1 <= 'f');
                let h2ok = (h2 >= '0' && h2 <= '9') || (h2 >= 'a' && h2 <= 'f');
                if !(d0 == '0' && d1 == '0' && h1ok && h2ok) {
                    proof {
                        assert(sp_str_body(s@, cur as int) is None);
                    }
                    return None;
                }
                let v1: u32 = if h1 >= '0' && h1 <= '9' {
                    h1 as u32 - 48
                } else {
                    h1 as u32 - 87
                };
                let v2: u32 = if h2 >= '0' && h2 <= '9' {
                    h2 as u32 - 48
                } else {
                    h2 as u32 - 87
                };
                let v = v1 * 16 + v2;
                if v >= 0x20 {
                    proof {
                        assert(v1 == hex_val(s@[cur + 4]));
                        assert(v2 == hex_val(s@[cur + 5]));
                        assert(sp_str_body(s@, cur as int) is None);
                    }
                    return None;
                }
                let ch = (v as u8) as char;
                proof {
                    assert(v1 == hex_val(s@[cur + 4]));
                    assert(v2 == hex_val(s@[cur + 5]));
                    assert(sp_str_body(s@, cur as int) == sp_cons(ch, sp_str_body(s@, cur + 6)));
                    lemma_acc_shift(acc@, ch, sp_str_body(s@, cur + 6));
                }
                acc.push(ch);
                cur = cur + 6;
            } else {
                proof {
                    assert(sp_str_body(s@, cur as int) is None);
                }
                return None;
            }
        } else {
            let zero = 0u8 as char;
            let space = 32u8 as char;
            if c >= zero && c < space {
                proof {
                    assert(sp_str_body(s@, cur as int) is None);
                }
                return None;
            } else {
                proof {
                    assert(sp_str_body(s@, cur as int) == sp_cons(c, sp_str_body(s@, cur + 1)));
                    lemma_acc_shift(acc@, c, sp_str_body(s@, cur + 1));
                }
                acc.push(c);
                cur = cur + 1;
            }
        }
    }
}

/// Pushing `c` onto the accumulator matches prepending it to the remainder.
proof fn lemma_acc_shift(acc: Seq<char>, c: char, rest: Option<(Seq<char>, int)>)
    ensures
        match sp_cons(c, rest) {
            Some((t, j)) => match rest {
                Some((t2, j2)) => acc + t =~= acc.push(c) + t2 && j == j2,
                None => false,
            },
            None => rest is None,
        },
{
    match rest {
        Some((t2, j2)) => {
            assert(acc + (seq![c] + t2) =~= acc.push(c) + t2);
        },
        None => {},
    }
}

/// Parse an unsigned decimal number at `i`.
pub open spec fn sp_u64(s: Seq<char>, i: int) -> Option<(u64, int)> {
    let e = digits_end(s, i);
    if 0 <= i <= s.len() && e > i && digits_value(s, i, e) <= u64::MAX {
        Some((digits_value(s, i, e) as u64, e))
    } else {
        None
    }
}

/// Rendering `n` and parsing it back, with a non-digit (or the end)
/// following, recovers `n`.
pub proof fn lemma_u64_round_trip(n: u64, s: Seq<char>, i: int)
    requires
        0 <= i,
        i + spec_digits(n as nat).len() <= s.len(),
        forall|k: int|
            0 <= k < spec_digits(n as nat).len() ==> s[i + k] == #[trigger] spec_digits(
                n as nat,
            )[k],
        i + spec_digits(n as nat).len() < s.len() ==> !is_digit(
            s[i + spec_digits(n as nat).len()],
        ),
    ensures
        sp_u64(s, i) == Some((n, i + spec_digits(n as nat).len())),
{
    lemma_digits_round_trip(s, i, n as nat);
}

/// Parse an unsigned decimal number at `i`, as `sp_u64` describes.
pub fn parse_json_u64(s: &Vec<char>, i: usize) -> (r: Option<(u64, usize)>)
    requires
        i <= s@.len(),
    ensures
        match r {
            Some((n, j)) => sp_u64(s@, i as int) == Some((n, j as int)) && i < j <= s@.len(),
            None => sp_u64(s@, i as int) is None,
        },
{
    match parse_u64_at(s, i) {
        Some((n, j)) => Some((n, j)),
        None => {
            proof {
                crate::digits::lemma_digits_end_bounds(s@, i as int);
            }
            None
        },
    }
}

/// A fixed piece of literal text at `i`.
pub open spec fn sp_lit(s: Seq<char>, i: int, lit: Seq<char>) -> Option<int> {
    if 0 <= i && i + lit.len() <= s.len() && s.subrange(i, i + lit.len()) == lit {
        Some(i + lit.len())
    } else {
        None
    }
}

/// If `lit` stands at `i` in `s`, the literal parser accepts it.
pub proof fn lemma_sp_lit_here(s: Seq<char>, i: int, lit: Seq<char>)
    requires
        0 <= i,
        i + lit.len() <= s.len(),
        forall|k: int| 0 <= k < lit.len() ==> s[i + k] == #[trigger] lit[k],
    ensures
        sp_lit(s, i, lit) == Some(i + lit.len()),
{
    assert(s.subrange(i, i + lit.len()) =~= lit);
}

/// Match a fixed piece of literal text at `i`.
pub fn eat_lit(s: &Vec<char>, i: usize, lit: &Vec<char>) -> (r: Option<usize>)
    ensures
        match r {
            Some(j) => sp_lit(s@, i as int, lit@) == Some(j as int) && i <= j <= s@.len(),
            None => sp_lit(s@, i as int, lit@) is None,
        },
{
    if i > s.len() || lit.len() > s.len() - i {
        return None;
    }
    let slen = s.len();
    let mut k: usize = 0;
    while k < lit.len()
        invariant
            k <= lit@.len(),
            slen == s@.len(),
            i + lit@.len() <= s@.len(),
            forall|t: int| 0 <= t < k ==> s@[i + t] == lit@[t],
        decreases lit@.len() - k,
    {
        if s[i + k] != lit[k] {
            proof {
                assert(s@.subrange(i as int, i + lit@.len())[k as int] == s@[i + k]);
            }
            return None;
        }
        k = k + 1;
    }
    proof {
        assert(s@.subrange(i as int, i + lit@.len()) =~= lit@);
    }
    Some(i + lit.len())
}


/// A quoted, escaped string embedded in `s` parses back to its content.
pub proof fn lemma_string_round_trip(t: Seq<char>, s: Seq<char>, i: int)
    requires
        0 <= i,
        i + emit_string(t).len() <= s.len(),
        forall|k: int|
            0 <= k < emit_string(t).len() ==> s[i + k] == #[trigger] emit_string(t)[k],
    ensures
        sp_string(s, i) == Some((t, i + emit_string(t).len())),
{
    let body = emit_str_body(t);
    assert(emit_string(t).len() == body.len() + 2);
    assert(s[i + 0] == emit_string(t)[0]);
    assert(emit_string(t)[0] == '"');
    assert forall|k: int| 0 <= k < body.len() implies s[i + 1 + k] == #[trigger] body[k] by {
        assert(emit_string(t)[1 + k] == body[k]);
    }
    assert(s[i + 1 + body.len() as int] == emit_string(t)[1 + body.len() as int]);
    assert(emit_string(t)[1 + body.len() as int] == '"');
    lemma_str_body_round_trip(t, s, i + 1);
}

/// Append the characters of a fixed piece of text to `out`.
pub fn push_lit(lit: &str, out: &mut Vec<char>)
    ensures
        final(out)@ == old(out)@ + lit@,
{
    let cs = crate::strutil::chars_of(lit);
    let ghost base = out@;
    let mut k: usize = 0;
    while k < cs.len()
        invariant
            k <= cs@.len(),
            cs@ == lit@,
            out@ == base + cs@.subrange(0, k as int),
        decreases cs@.len() - k,
    {
        out.push(cs[k]);
        k = k + 1;
        proof {
            assert(out@ =~= base + cs@.subrange(0, k as int));
        }
    }
    proof {
        assert(out@ =~= base + lit@);
    }
}

} // verus!
