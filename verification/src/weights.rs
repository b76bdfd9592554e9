//! Reading tokenized portfolio weight snapshots: `path:weight` pairs joined
//! by commas. The weights stay text here; their numeric values are read by
//! the caller.

use crate::text::{chars_of, slice_of, string_of, trim, trim_of};
use vstd::prelude::*;

verus! {

/// `s[start..]` split at every `c` from index `i` on (`str::split`).
pub open spec fn split_from(s: Seq<char>, c: char, i: int, start: int) -> Seq<Seq<char>>
    decreases s.len() - i,
{
    if i < 0 || i >= s.len() {
        seq![s.subrange(start, s.len() as int)]
    } else if s[i] == c {
        seq![s.subrange(start, i)] + split_from(s, c, i + 1, i + 1)
    } else {
        split_from(s, c, i + 1, start)
    }
}

/// Index of the last `c` in `s[..j]`.
pub open spec fn last_index_of(s: Seq<char>, c: char, j: int) -> Option<int>
    decreases j,
{
    if j <= 0 || j > s.len() {
        None
    } else if s[j - 1] == c {
        Some(j - 1)
    } else {
        last_index_of(s, c, j - 1)
    }
}

/// The path and weight text of one pair, when it has a `:` and a path.
pub open spec fn weight_pair(piece: Seq<char>) -> Option<(Seq<char>, Seq<char>)> {
    let pair = trim(piece);
    if pair.len() == 0 {
        None
    } else {
        match last_index_of(pair, ':', pair.len() as int) {
            None => None,
            Some(k) => {
                let path = trim(pair.subrange(0, k));
                if path.len() == 0 {
                    None
                } else {
                    Some((path, trim(pair.subrange(k + 1, pair.len() as int))))
                }
            },
        }
    }
}

/// The pairs of `pieces[..k]`, in order.
pub open spec fn pairs_upto(pieces: Seq<Seq<char>>, k: int) -> Seq<(Seq<char>, Seq<char>)>
    decreases k,
{
    if k <= 0 || k > pieces.len() {
        Seq::empty()
    } else {
        let prev = pairs_upto(pieces, k - 1);
        match weight_pair(pieces[k - 1]) {
            Some(p) => prev.push(p),
            None => prev,
        }
    }
}

pub open spec fn spec_weight_pairs(encoded: Seq<char>) -> Seq<(Seq<char>, Seq<char>)> {
    let pieces = split_from(trim(encoded), ',', 0, 0);
    pairs_upto(pieces, pieces.len() as int)
}

pub open spec fn text_pair_views(v: Seq<(String, String)>) -> Seq<(Seq<char>, Seq<char>)> {
    Seq::new(v.len(), |i: int| (v[i].0@, v[i].1@))
}

proof fn lemma_split_from_nonempty(s: Seq<char>, c: char, i: int, start: int)
    ensures
        split_from(s, c, i, start).len() >= 1,
    decreases s.len() - i,
{
    if 0 <= i < s.len() {
        if s[i] == c {
            lemma_split_from_nonempty(s, c, i + 1, i + 1);
        } else {
            lemma_split_from_nonempty(s, c, i + 1, start);
        }
    }
}

fn weight_pair_of(piece: &[char]) -> (r: Option<(Vec<char>, Vec<char>)>)
    ensures
        r matches Some((p, w)) ==> weight_pair(piece@) == Some((p@, w@)),
        r is None ==> weight_pair(piece@) is None,
{
    let pair = trim_of(piece);
    if pair.len() == 0 {
        return None;
    }
    let mut j = pair.len();
    while j > 0 && pair[j - 1] != ':'
        invariant
            j <= pair@.len(),
            last_index_of(pair@, ':', pair@.len() as int) == last_index_of(pair@, ':', j as int),
        decreases j,
    {
        j = j - 1;
    }
    if j == 0 {
        return None;
    }
    let k = j - 1;
    let path = trim_of(&slice_of(&pair, 0, k));
    if path.len() == 0 {
        return None;
    }
    let weight = trim_of(&slice_of(&pair, k + 1, pair.len()));
    Some((path, weight))
}

/// The `(path, weight text)` pairs of an encoded snapshot, in order; pieces
/// without a `:` or without a path are skipped.
pub fn weight_pair_texts(encoded_weights: &str) -> (r: Vec<(String, String)>)
    ensures
        text_pair_views(r@) == spec_weight_pairs(encoded_weights@),
{
    let s = trim_of(&chars_of(encoded_weights));
    let ghost pieces = split_from(s@, ',', 0, 0);
    let mut out: Vec<(String, String)> = Vec::new();
    let mut start: usize = 0;
    let mut i: usize = 0;
    let ghost done: int = 0;
    while i < s.len()
        invariant
            start <= i <= s@.len(),
            pieces == split_from(s@, ',', 0, 0),
            0 <= done <= pieces.len(),
            pieces =~= pieces.subrange(0, done) + split_from(s@, ',', i as int, start as int),
            text_pair_views(out@) == pairs_upto(pieces, done),
        decreases s.len() - i,
    {
        if s[i] == ',' {
            let ghost before = out@;
            let piece = slice_of(&s, start, i);
            proof {
                lemma_split_from_nonempty(s@, ',', i + 1, i + 1);
                assert(split_from(s@, ',', i as int, start as int) == seq![piece@] + split_from(
                    s@,
                    ',',
                    i + 1,
                    i + 1,
                ));
                assert(pieces[done] == (pieces.subrange(0, done) + split_from(s@, ',', i as int, start as int))[done]);
                assert(pieces[done] == piece@);
                assert(pieces.subrange(0, done + 1) =~= pieces.subrange(0, done).push(piece@));
                assert(pieces =~= pieces.subrange(0, done + 1) + split_from(s@, ',', i + 1, i + 1));
            }
            match weight_pair_of(&piece) {
                Some((p, w)) => {
                    out.push((string_of(&p), string_of(&w)));
                    assert(text_pair_views(out@) =~= text_pair_views(before).push((p@, w@)));
                },
                None => {},
            }
            proof {
                done = done + 1;
            }
            start = i + 1;
        }
        i = i + 1;
    }
    let ghost before = out@;
    let piece = slice_of(&s, start, s.len());
    proof {
        assert(split_from(s@, ',', i as int, start as int) == seq![piece@]);
        assert(pieces =~= pieces.subrange(0, done) + seq![piece@]);
        assert(pieces =~= pieces.subrange(0, done).push(piece@));
        assert(pieces.len() == done + 1);
        assert(pieces[done] == piece@);
    }
    match weight_pair_of(&piece) {
        Some((p, w)) => {
            out.push((string_of(&p), string_of(&w)));
            assert(text_pair_views(out@) =~= text_pair_views(before).push((p@, w@)));
        },
        None => {},
    }
    out
}

} // verus!
