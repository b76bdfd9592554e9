//! `/`-separated path helpers used for layer and sidecar file names.

use crate::text::slice_of;
use vstd::prelude::*;

verus! {

/// Index just after the last `/` in `p[..j]` (0 when there is none).
pub open spec fn seg_start(p: Seq<char>, j: int) -> int
    decreases j,
{
    if j <= 0 || j > p.len() {
        0
    } else if p[j - 1] == '/' {
        j
    } else {
        seg_start(p, j - 1)
    }
}

pub proof fn lemma_seg_start(p: Seq<char>, j: int)
    requires
        0 <= j <= p.len(),
    ensures
        0 <= seg_start(p, j) <= j,
        forall|i: int| seg_start(p, j) <= i < j ==> p[i] != '/',
        seg_start(p, j) > 0 ==> p[seg_start(p, j) - 1] == '/',
    decreases j,
{
    if j > 0 && p[j - 1] != '/' {
        lemma_seg_start(p, j - 1);
    }
}

/// Final normal component of `p[..j]`, as `Path::file_name` finds it:
/// trailing `/` and `.` components are skipped; `..`, a root or a leading
/// `.` leave no file name.
pub open spec fn file_name_upto(p: Seq<char>, j: int) -> Option<Seq<char>>
    decreases j,
{
    if j <= 0 || j > p.len() {
        None
    } else if p[j - 1] == '/' {
        file_name_upto(p, j - 1)
    } else {
        proof {
            lemma_seg_start(p, j);
        }
        let k = seg_start(p, j);
        let seg = p.subrange(k, j);
        if seg == seq!['.'] {
            if k == 0 {
                None
            } else {
                file_name_upto(p, k)
            }
        } else if seg == seq!['.', '.'] {
            None
        } else {
            Some(seg)
        }
    }
}

pub open spec fn path_file_name(p: Seq<char>) -> Option<Seq<char>> {
    file_name_upto(p, p.len() as int)
}

fn seg_start_of(p: &[char], j: usize) -> (k: usize)
    requires
        j <= p@.len(),
    ensures
        k == seg_start(p@, j as int),
        k <= j,
{
    proof {
        lemma_seg_start(p@, j as int);
    }
    let mut k = j;
    while k > 0 && p[k - 1] != '/'
        invariant
            k <= j <= p@.len(),
            seg_start(p@, j as int) == seg_start(p@, k as int),
        decreases k,
    {
        k = k - 1;
    }
    k
}

/// The last component of a `/`-separated path (`Path::file_name`).
pub fn file_name_of(p: &[char]) -> (r: Option<Vec<char>>)
    ensures
        r matches Some(v) ==> path_file_name(p@) == Some(v@),
        r is None ==> path_file_name(p@) is None,
{
    let mut j = p.len();
    loop
        invariant
            j <= p@.len(),
            path_file_name(p@) == file_name_upto(p@, j as int),
        decreases j,
    {
        if j == 0 {
            return None;
        }
        if p[j - 1] == '/' {
            j = j - 1;
        } else {
            let k = seg_start_of(p, j);
            proof {
                lemma_seg_start(p@, j as int);
            }
            let seg = slice_of(p, k, j);
            if seg.len() == 1 && seg[0] == '.' {
                assert(seg@ =~= seq!['.']);
                if k == 0 {
                    return None;
                }
                j = k;
            } else if seg.len() == 2 && seg[0] == '.' && seg[1] == '.' {
                assert(seg@ =~= seq!['.', '.']);
                return None;
            } else {
                assert(seg@ != seq!['.']) by {
                    if seg@ == seq!['.'] {
                        assert(seg@[0] == '.');
                    }
                }
                assert(seg@ != seq!['.', '.']) by {
                    if seg@ == seq!['.', '.'] {
                        assert(seg@[0] == '.' && seg@[1] == '.');
                    }
                }
                return Some(seg);
            }
        }
    }
}

// ---------------------------------------------------------------------------
// Parent directories and joined paths
// ---------------------------------------------------------------------------

/// What `std::path::Path::parent` gives for the path with text `p`, as text.
pub uninterp spec fn path_parent(p: Seq<char>) -> Option<Seq<char>>;

/// `base` joined with `rel` as `std::path::Path::join` does on `/` paths: an
/// absolute `rel` replaces `base`; otherwise one `/` is put between them unless
/// `base` is empty or already ends in `/`.
pub open spec fn path_join(base: Seq<char>, rel: Seq<char>) -> Seq<char> {
    if rel.len() > 0 && rel[0] == '/' {
        rel
    } else if base.len() > 0 && base.last() != '/' {
        base + seq!['/'] + rel
    } else {
        base + rel
    }
}

/// `std::path::Path::parent`: the path without its final component, `None`
/// for a root or an empty path. The result is a piece of a `&str` path and so
/// is valid text; it is named, not spelled out, here.
#[verifier::external_body]
pub(crate) fn parent_text(p: &str) -> (r: Option<String>)
    ensures
        match r {
            Some(q) => path_parent(p@) == Some(q@),
            None => path_parent(p@) is None,
        },
{
    std::path::Path::new(p).parent().map(|q| q.to_string_lossy().into_owned())
}

/// `std::path::Path::join`: `rel` adjoined to `base`, with a separator where
/// one is needed; an absolute `rel` replaces `base` (`path_join`). Both are
/// text, so the lossy conversion back to a `String` loses nothing. Paths are
/// read with `/` as the only separator.
#[verifier::external_body]
pub(crate) fn join_text(base: &str, rel: &str) -> (r: String)
    ensures
        r@ == path_join(base@, rel@),
{
    std::path::Path::new(base).join(rel).to_string_lossy().into_owned()
}

} // verus!
