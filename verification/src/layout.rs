//! Follow-mode navigation targets and letter/index conversions.
//!
//! Follow mode labels up to 26 terminals with the letters `a`-`z`; the
//! targets are the (workspace, terminal) coordinates in workspace order.

use vstd::prelude::*;

verus! {

/// Maximum number of follow mode targets (`a`-`z`).
pub const MAX_FOLLOW_TARGETS: usize = 26;

/// The targets contributed by workspace `ws` with `count` terminals.
pub open spec fn ws_targets(ws: int, count: int) -> Seq<(usize, usize)> {
    Seq::new(count as nat, |t: int| (ws as usize, t as usize))
}

/// All (workspace, terminal) coordinates, in workspace order, uncapped.
pub open spec fn flat_targets(counts: Seq<usize>) -> Seq<(usize, usize)>
    decreases counts.len(),
{
    if counts.len() == 0 {
        Seq::empty()
    } else {
        flat_targets(counts.drop_last()) + ws_targets(
            counts.len() - 1,
            counts.last() as int,
        )
    }
}

/// The follow targets: the first 26 coordinates.
pub open spec fn spec_follow_targets(counts: Seq<usize>) -> Seq<(usize, usize)> {
    if flat_targets(counts).len() <= 26 {
        flat_targets(counts)
    } else {
        flat_targets(counts).take(26)
    }
}

proof fn lemma_flat_targets_step(counts: Seq<usize>, p: int)
    requires
        0 <= p < counts.len(),
    ensures
        flat_targets(counts.take(p + 1)) == flat_targets(counts.take(p)) + ws_targets(
            p,
            counts[p] as int,
        ),
{
    let s = counts.take(p + 1);
    assert(s.drop_last() =~= counts.take(p));
    assert(s.last() == counts[p]);
}

/// Build the flat mapping from letter index to (workspace, terminal),
/// capped at 26 entries.
pub fn build_follow_targets(counts: &Vec<usize>) -> (r: Vec<(usize, usize)>)
    ensures
        r@ == spec_follow_targets(counts@),
{
    let mut r: Vec<(usize, usize)> = Vec::new();
    let mut ws: usize = 0;
    proof {
        assert(counts@.take(0) =~= Seq::<usize>::empty());
    }
    while ws < counts.len()
        invariant
            ws <= counts@.len(),
            r@ == spec_follow_targets(counts@.take(ws as int)),
            r@.len() <= 26,
        decreases counts@.len() - ws,
    {
        let ghost pre = counts@.take(ws as int);
        let ghost post = counts@.take(ws as int + 1);
        proof {
            lemma_flat_targets_step(counts@, ws as int);
        }
        let count = counts[ws];
        let room = MAX_FOLLOW_TARGETS - r.len();
        let take_n = if count < room {
            count
        } else {
            room
        };
        let mut t: usize = 0;
        while t < take_n
            invariant
                t <= take_n,
                take_n <= count,
                ws < counts@.len(),
                count == counts@[ws as int],
                take_n == if count < 26 - spec_follow_targets(pre).len() {
                    count as int
                } else {
                    26 - spec_follow_targets(pre).len()
                },
                pre == counts@.take(ws as int),
                r@ == spec_follow_targets(pre) + ws_targets(ws as int, count as int).take(
                    t as int,
                ),
                r@.len() <= 26,
            decreases take_n - t,
        {
            r.push((ws, t));
            t = t + 1;
            proof {
                assert(ws_targets(ws as int, count as int).take(t as int) =~= ws_targets(
                    ws as int,
                    count as int,
                ).take(t - 1).push((ws, (t - 1) as usize)));
            }
        }
        proof {
            let a = flat_targets(pre);
            let b = ws_targets(ws as int, count as int);
            let full = flat_targets(post);
            assert(full == a + b);
            if a.len() <= 26 {
                assert(spec_follow_targets(pre) == a);
                if full.len() <= 26 {
                    assert(take_n == count);
                    assert(b.take(count as int) =~= b);
                    assert(r@ =~= full);
                } else {
                    assert(take_n == 26 - a.len());
                    assert(r@ =~= full.take(26));
                }
            } else {
                // 26 targets were already collected; this workspace adds none.
                assert(spec_follow_targets(pre) == a.take(26));
                assert(take_n == 0);
                assert(b.take(0) =~= Seq::<(usize, usize)>::empty());
                assert(r@ =~= a.take(26));
                assert(full.take(26) =~= a.take(26));
            }
        }
        ws = ws + 1;
        proof {
            assert(counts@.take(ws as int) == post);
        }
    }
    proof {
        assert(counts@.take(counts@.len() as int) =~= counts@);
    }
    r
}

/// Convert a letter index to its lower-case letter: 0 is 'a', 25 is 'z'.
pub fn index_to_letter(index: usize) -> (r: Option<char>)
    ensures
        index < 26 ==> r == Some(((97 + index) as u8) as char),
        index >= 26 ==> r is None,
{
    if index < 26 {
        Some((97u8 + index as u8) as char)
    } else {
        None
    }
}

/// Convert a letter to its index: 'a' or 'A' is 0, 'z' or 'Z' is 25;
/// anything else has none.
pub fn letter_to_index(letter: char) -> (r: Option<usize>)
    ensures
        97 <= letter as int <= 122 ==> r == Some((letter as int - 97) as usize),
        65 <= letter as int <= 90 ==> r == Some((letter as int - 65) as usize),
        !(97 <= letter as int <= 122) && !(65 <= letter as int <= 90) ==> r is None,
{
    if letter >= 'a' && letter <= 'z' {
        Some((letter as u32 - 97) as usize)
    } else if letter >= 'A' && letter <= 'Z' {
        Some((letter as u32 - 65) as usize)
    } else {
        None
    }
}

} // verus!
