//! The `subLayers = [ ... ]` block of a root layer: reading the ordered layer
//! file names out of it, and rewriting it after an insert, reorder or removal.

use crate::layers::string_views;
use crate::path::{
    file_name_of, file_name_upto, join_text, lemma_seg_start, parent_text, path_file_name, path_join,
    path_parent, seg_start,
};
use crate::script::{lemma_next_nl, line_at, next_newline, next_nl, views};
use crate::text::{
    append_chars, chars_of, ends_with, ends_with_chars, find, find_at_or_after, find_first,
    find_from, is_ws, lemma_back_ws_bounds, lemma_find_from_props, lemma_skip_ws_bounds, occurs_at, skip_ws_from, back_ws_from, slice_of, string_of,
    strip_trailing, strip_trailing_of, trim, trim_of,
};
use vstd::prelude::*;

verus! {

// ---------------------------------------------------------------------------
// Fixed text
// ---------------------------------------------------------------------------

pub open spec fn kw_sublayers() -> Seq<char> {
    seq!['s', 'u', 'b', 'L', 'a', 'y', 'e', 'r', 's']
}

/// `"    subLayers = [\n"`
pub open spec fn block_head() -> Seq<char> {
    seq![' ', ' ', ' ', ' '] + kw_sublayers() + seq![' ', '=', ' ', '[', '\n']
}

/// `"    ]"`
pub open spec fn block_tail() -> Seq<char> {
    seq![' ', ' ', ' ', ' ', ']']
}

/// The eight blanks before each reference.
pub open spec fn ref_indent() -> Seq<char> {
    seq![' ', ' ', ' ', ' ', ' ', ' ', ' ', ' ']
}

/// `"\n)\n"`: the end of the root layer's metadata.
pub open spec fn metadata_close() -> Seq<char> {
    seq!['\n', ')', '\n']
}

pub open spec fn ext_usda() -> Seq<char> {
    seq!['.', 'u', 's', 'd', 'a']
}

pub open spec fn ext_usd() -> Seq<char> {
    seq!['.', 'u', 's', 'd']
}

fn v_sublayers() -> (v: Vec<char>)
    ensures
        v@ == kw_sublayers(),
{
    let v = vec!['s', 'u', 'b', 'L', 'a', 'y', 'e', 'r', 's'];
    assert(v@ =~= kw_sublayers());
    v
}

fn v_block_head() -> (v: Vec<char>)
    ensures
        v@ == block_head(),
{
    let v = vec![' ', ' ', ' ', ' ', 's', 'u', 'b', 'L', 'a', 'y', 'e', 'r', 's', ' ', '=', ' ', '[', '\n'];
    assert(v@ =~= block_head());
    v
}

fn v_block_tail() -> (v: Vec<char>)
    ensures
        v@ == block_tail(),
{
    let v = vec![' ', ' ', ' ', ' ', ']'];
    assert(v@ =~= block_tail());
    v
}

fn v_ref_indent() -> (v: Vec<char>)
    ensures
        v@ == ref_indent(),
{
    let v = vec![' ', ' ', ' ', ' ', ' ', ' ', ' ', ' '];
    assert(v@ =~= ref_indent());
    v
}

fn v_metadata_close() -> (v: Vec<char>)
    ensures
        v@ == metadata_close(),
{
    let v = vec!['\n', ')', '\n'];
    assert(v@ =~= metadata_close());
    v
}

fn v_ext_usda() -> (v: Vec<char>)
    ensures
        v@ == ext_usda(),
{
    let v = vec!['.', 'u', 's', 'd', 'a'];
    assert(v@ =~= ext_usda());
    v
}

fn v_ext_usd() -> (v: Vec<char>)
    ensures
        v@ == ext_usd(),
{
    let v = vec!['.', 'u', 's', 'd'];
    assert(v@ =~= ext_usd());
    v
}

// ---------------------------------------------------------------------------
// Reading the block
// ---------------------------------------------------------------------------

/// `@./session.usda@` → `session.usda`: the file name inside the `@` quotes.
pub open spec fn ref_filename(reference: Seq<char>) -> Option<Seq<char>> {
    let t = trim(reference);
    if t.len() >= 2 && t[0] == '@' && t.last() == '@' {
        path_file_name(t.subrange(1, t.len() - 1))
    } else {
        None
    }
}

/// A line of the block without its surrounding blanks and trailing commas.
pub open spec fn sublayer_token(line: Seq<char>) -> Seq<char> {
    trim(strip_trailing(trim(line), ','))
}

/// The file names named by the lines of `s` from index `i` on.
pub open spec fn filenames_from(s: Seq<char>, i: int) -> Seq<Seq<char>>
    decreases s.len() - i,
{
    if i < 0 || i >= s.len() {
        Seq::empty()
    } else {
        proof {
            lemma_next_nl(s, i);
        }
        let e = next_nl(s, i);
        let tok = sublayer_token(line_at(s, i));
        let head: Seq<Seq<char>> = if tok.len() == 0 {
            Seq::empty()
        } else {
            match ref_filename(tok) {
                Some(n) => seq![n],
                None => Seq::empty(),
            }
        };
        head + (if e < s.len() {
            filenames_from(s, e + 1)
        } else {
            Seq::empty()
        })
    }
}

/// `[start, end)` of the block: from the first `[` after `subLayers` to the
/// first `]` after it, inclusive.
pub open spec fn sublayers_block(text: Seq<char>) -> Option<(int, int)> {
    match find(text, kw_sublayers()) {
        None => None,
        Some(start) => match find_from(text, seq!['['], start) {
            None => None,
            Some(open) => match find_from(text, seq![']'], open) {
                None => None,
                Some(close) => Some((open, close + 1)),
            },
        },
    }
}

/// The ordered sublayer file names of a root layer (empty without a block).
pub open spec fn spec_parse_sublayers(text: Seq<char>) -> Seq<Seq<char>> {
    match sublayers_block(text) {
        None => Seq::empty(),
        Some((a, b)) => filenames_from(text.subrange(a, b), 0),
    }
}

fn ref_filename_of(reference: &[char]) -> (r: Option<Vec<char>>)
    ensures
        r matches Some(v) ==> ref_filename(reference@) == Some(v@),
        r is None ==> ref_filename(reference@) is None,
{
    let t = trim_of(reference);
    if t.len() >= 2 && t[0] == '@' && t[t.len() - 1] == '@' {
        let inner = slice_of(&t, 1, t.len() - 1);
        file_name_of(&inner)
    } else {
        None
    }
}

/// Normalize `@./session.usda@` → `session.usda`.
pub fn sublayer_ref_to_filename(reference: &str) -> (r: Option<String>)
    ensures
        r matches Some(s) ==> ref_filename(reference@) == Some(s@),
        r is None ==> ref_filename(reference@) is None,
{
    let cs = chars_of(reference);
    match ref_filename_of(&cs) {
        Some(v) => Some(string_of(&v)),
        None => None,
    }
}

fn sublayers_block_of(text: &[char]) -> (r: Option<(usize, usize)>)
    ensures
        r matches Some((a, b)) ==> sublayers_block(text@) == Some((a as int, b as int)) && a < b
            <= text@.len(),
        r is None ==> sublayers_block(text@) is None,
{
    let kw = v_sublayers();
    let start = match find_first(text, &kw) {
        Some(k) => k,
        None => return None,
    };
    let lb = vec!['['];
    assert(lb@ =~= seq!['[']);
    let open = match find_at_or_after(text, &lb, start) {
        Some(k) => k,
        None => return None,
    };
    let rb = vec![']'];
    assert(rb@ =~= seq![']']);
    proof {
        lemma_find_from_props(text@, seq!['['], start as int);
    }
    match find_at_or_after(text, &rb, open) {
        Some(close) => {
            proof {
                lemma_find_from_props(text@, seq![']'], open as int);
                assert(find_from(text@, seq![']'], open as int) == Some(close as int));
                assert(close + 1 <= text@.len());
            }
            assert(close < text.len());
            Some((open, close + 1))
        },
        None => None,
    }
}

fn line_at_of(s: &[char], i: usize, e: usize) -> (l: Vec<char>)
    requires
        i <= e <= s@.len(),
        e == next_nl(s@, i as int),
    ensures
        l@ == line_at(s@, i as int),
{
    let mut l = slice_of(s, i, e);
    if e < s.len() && l.len() > 0 && l[l.len() - 1] == '\r' {
        let ghost before = l@;
        l.pop();
        assert(l@ =~= before.drop_last());
    }
    l
}

fn sublayer_token_of(line: &[char]) -> (t: Vec<char>)
    ensures
        t@ == sublayer_token(line@),
{
    let a = trim_of(line);
    let b = strip_trailing_of(&a, ',');
    trim_of(&b)
}

fn filenames_of(s: &[char]) -> (out: Vec<Vec<char>>)
    ensures
        views(out@) == filenames_from(s@, 0),
{
    let mut out: Vec<Vec<char>> = Vec::new();
    let mut i: usize = 0;
    while i < s.len()
        invariant
            i <= s@.len(),
            filenames_from(s@, 0) == views(out@) + filenames_from(s@, i as int),
        decreases s@.len() - i,
    {
        let e = next_newline(s, i);
        let line = line_at_of(s, i, e);
        let tok = sublayer_token_of(&line);
        let ghost old_out = out@;
        let ghost head: Seq<Seq<char>> = if tok@.len() == 0 {
            Seq::empty()
        } else {
            match ref_filename(tok@) {
                Some(n) => seq![n],
                None => Seq::empty(),
            }
        };
        if tok.len() > 0 {
            match ref_filename_of(&tok) {
                Some(n) => {
                    out.push(n);
                },
                None => {},
            }
        }
        assert(views(out@) =~= views(old_out) + head);
        let ghost old_i = i;
        if e < s.len() {
            i = e + 1;
        } else {
            i = s.len();
        }
        assert(filenames_from(s@, old_i as int) == head + filenames_from(s@, i as int));
        assert(views(old_out) + (head + filenames_from(s@, i as int)) =~= views(out@)
            + filenames_from(s@, i as int));
    }
    assert(views(out@) + filenames_from(s@, i as int) =~= views(out@));
    out
}

fn parse_chars(text: &[char]) -> (out: Vec<Vec<char>>)
    ensures
        views(out@) == spec_parse_sublayers(text@),
{
    match sublayers_block_of(text) {
        None => Vec::new(),
        Some((a, b)) => {
            let block = slice_of(text, a, b);
            filenames_of(&block)
        },
    }
}

fn to_strings(v: &Vec<Vec<char>>) -> (out: Vec<String>)
    ensures
        string_views(out@) == views(v@),
{
    let mut out: Vec<String> = Vec::new();
    let mut i: usize = 0;
    while i < v.len()
        invariant
            i <= v@.len(),
            string_views(out@) =~= views(v@).subrange(0, i as int),
        decreases v.len() - i,
    {
        let ghost before = out@;
        out.push(string_of(&v[i]));
        assert(string_views(out@) =~= string_views(before).push(v@[i as int]@));
        assert(views(v@).subrange(0, i + 1) =~= views(v@).subrange(0, i as int).push(v@[i as int]@));
        i = i + 1;
    }
    out
}

fn to_char_vecs(v: &[String]) -> (out: Vec<Vec<char>>)
    ensures
        views(out@) == string_views(v@),
{
    let mut out: Vec<Vec<char>> = Vec::new();
    let mut i: usize = 0;
    while i < v.len()
        invariant
            i <= v@.len(),
            views(out@) =~= string_views(v@).subrange(0, i as int),
        decreases v.len() - i,
    {
        let ghost before = out@;
        out.push(chars_of(v[i].as_str()));
        assert(views(out@) =~= views(before).push(v@[i as int]@));
        assert(string_views(v@).subrange(0, i + 1) =~= string_views(v@).subrange(0, i as int).push(v@[i as int]@));
        i = i + 1;
    }
    out
}

/// Extract ordered sublayer filenames from root layer USDA text.
pub fn parse_ordered_sublayer_filenames(root_usda: &str) -> (r: Vec<String>)
    ensures
        string_views(r@) == spec_parse_sublayers(root_usda@),
{
    let cs = chars_of(root_usda);
    let names = parse_chars(&cs);
    to_strings(&names)
}

// ---------------------------------------------------------------------------
// Writing the block
// ---------------------------------------------------------------------------

/// `@./name@`
pub open spec fn sublayer_ref(name: Seq<char>) -> Seq<char> {
    seq!['@', '.', '/'] + name + seq!['@']
}

pub open spec fn refs_of(names: Seq<Seq<char>>) -> Seq<Seq<char>> {
    Seq::new(names.len(), |i: int| sublayer_ref(names[i]))
}

pub open spec fn ref_line(r: Seq<char>) -> Seq<char> {
    ref_indent() + r + seq!['\n']
}

pub open spec fn render_lines(refs: Seq<Seq<char>>) -> Seq<char>
    decreases refs.len(),
{
    if refs.len() == 0 {
        Seq::empty()
    } else {
        ref_line(refs[0]) + render_lines(refs.drop_first())
    }
}

/// The block as written back: one indented reference per line.
pub open spec fn render_block(refs: Seq<Seq<char>>) -> Seq<char> {
    block_head() + render_lines(refs) + block_tail()
}

/// A new block goes before the metadata's closing `)`, else at the end.
pub open spec fn spec_insert_block(text: Seq<char>, refs: Seq<Seq<char>>) -> Seq<char> {
    match find(text, metadata_close()) {
        Some(cp) => text.subrange(0, cp) + seq!['\n'] + render_block(refs) + text.subrange(
            cp,
            text.len() as int,
        ),
        None => text + seq!['\n'] + render_block(refs),
    }
}

/// The block from its `subLayers` key on, without the indent before the key.
pub open spec fn render_body(refs: Seq<Seq<char>>) -> Seq<char> {
    kw_sublayers() + seq![' ', '=', ' ', '[', '\n'] + render_lines(refs) + block_tail()
}

/// An existing block, from its `subLayers` key through its `]`, is replaced
/// by the rendered one, so the key is written once; without a block a new
/// one is inserted.
pub open spec fn spec_replace_block(text: Seq<char>, refs: Seq<Seq<char>>) -> Seq<char> {
    match sublayers_block(text) {
        None => spec_insert_block(text, refs),
        Some((a, b)) => {
            let s0 = find(text, kw_sublayers())->0;
            text.subrange(0, s0) + render_body(refs) + text.subrange(b, text.len() as int)
        },
    }
}

/// The root layer text once its sublayer list is `names`.
pub open spec fn spec_rewrite_sublayers(text: Seq<char>, names: Seq<Seq<char>>) -> Seq<char> {
    spec_replace_block(text, refs_of(names))
}

pub proof fn lemma_render_lines_push(refs: Seq<Seq<char>>, r: Seq<char>)
    ensures
        render_lines(refs.push(r)) == render_lines(refs) + ref_line(r),
    decreases refs.len(),
{
    if refs.len() == 0 {
        assert(refs.push(r).drop_first() =~= Seq::<Seq<char>>::empty());
        assert(render_lines(Seq::<Seq<char>>::empty()) == Seq::<char>::empty());
        assert(refs.push(r)[0] == r);
        assert(render_lines(refs.push(r)) =~= ref_line(r));
    } else {
        assert(refs.push(r).drop_first() =~= refs.drop_first().push(r));
        lemma_render_lines_push(refs.drop_first(), r);
        assert(render_lines(refs.push(r)) =~= render_lines(refs) + ref_line(r));
    }
}

fn render_block_of(names: &Vec<Vec<char>>) -> (out: Vec<char>)
    ensures
        out@ == render_block(refs_of(views(names@))),
{
    let mut out = v_block_head();
    let indent = v_ref_indent();
    let ghost refs = refs_of(views(names@));
    let mut i: usize = 0;
    assert(refs.subrange(0, 0) =~= Seq::<Seq<char>>::empty());
    while i < names.len()
        invariant
            i <= names@.len(),
            refs == refs_of(views(names@)),
            indent@ == ref_indent(),
            out@ == block_head() + render_lines(refs.subrange(0, i as int)),
        decreases names.len() - i,
    {
        let ghost before = out@;
        append_chars(&mut out, &indent);
        out.push('@');
        out.push('.');
        out.push('/');
        append_chars(&mut out, &names[i]);
        out.push('@');
        out.push('\n');
        proof {
            assert(refs[i as int] == sublayer_ref(names@[i as int]@));
            assert(refs.subrange(0, i + 1) =~= refs.subrange(0, i as int).push(refs[i as int]));
            lemma_render_lines_push(refs.subrange(0, i as int), refs[i as int]);
            assert(out@ =~= before + ref_line(refs[i as int]));
        }
        i = i + 1;
    }
    assert(refs.subrange(0, i as int) =~= refs);
    let tail = v_block_tail();
    append_chars(&mut out, &tail);
    out
}

fn insert_block_of(text: &[char], names: &Vec<Vec<char>>) -> (out: Vec<char>)
    ensures
        out@ == spec_insert_block(text@, refs_of(views(names@))),
{
    let close = v_metadata_close();
    let block = render_block_of(names);
    match find_first(text, &close) {
        Some(cp) => {
            proof {
                lemma_find_from_props(text@, metadata_close(), 0);
            }
            let mut out = slice_of(text, 0, cp);
            out.push('\n');
            append_chars(&mut out, &block);
            let rest = slice_of(text, cp, text.len());
            append_chars(&mut out, &rest);
            out
        },
        None => {
            let mut out = slice_of(text, 0, text.len());
            assert(out@ =~= text@);
            out.push('\n');
            append_chars(&mut out, &block);
            out
        },
    }
}

fn replace_block_of(text: &[char], names: &Vec<Vec<char>>) -> (out: Vec<char>)
    ensures
        out@ == spec_rewrite_sublayers(text@, views(names@)),
{
    match sublayers_block_of(text) {
        None => insert_block_of(text, names),
        Some((a, b)) => {
            let kw = v_sublayers();
            proof {
                lemma_find_from_props(text@, kw_sublayers(), 0);
            }
            let s0 = match find_first(text, &kw) {
                Some(k) => k,
                None => {
                    assert(false);
                    0
                },
            };
            proof {
                lemma_find_from_props(text@, seq!['['], s0 as int);
            }
            assert(s0 <= a);
            let block = render_block_of(names);
            let ghost refs = refs_of(views(names@));
            assert(block@ == block_head() + render_lines(refs) + block_tail());
            assert(block@.subrange(4, block@.len() as int) =~= render_body(refs));
            let mut out = slice_of(text, 0, s0);
            let body = slice_of(&block, 4, block.len());
            append_chars(&mut out, &body);
            let rest = slice_of(text, b, text.len());
            append_chars(&mut out, &rest);
            out
        },
    }
}

/// The root layer text with its sublayer list replaced by `filenames`
/// (written as `@./name@` references).
pub fn rewrite_ordered_sublayers(root_text: &str, filenames: &[String]) -> (r: String)
    ensures
        r@ == spec_rewrite_sublayers(root_text@, string_views(filenames@)),
{
    let cs = chars_of(root_text);
    let names = to_char_vecs(filenames);
    let out = replace_block_of(&cs, &names);
    string_of(&out)
}

// ---------------------------------------------------------------------------
// Stack edits on the root layer text
// ---------------------------------------------------------------------------

/// The file name of `filename`, with `.usda` added unless it already ends in
/// `.usda` or `.usd`.
pub open spec fn spec_normalize_layer_filename(filename: Seq<char>) -> Seq<char> {
    let leaf = match path_file_name(filename) {
        Some(n) => n,
        None => filename,
    };
    if ends_with(leaf, ext_usda()) || ends_with(leaf, ext_usd()) {
        leaf
    } else {
        leaf + ext_usda()
    }
}

/// `None` when the layer is already in the stack (nothing to write).
pub open spec fn spec_insert_sublayer(text: Seq<char>, index: int, filename: Seq<char>) -> Option<
    Seq<char>,
> {
    let f = spec_normalize_layer_filename(filename);
    let ordered = spec_parse_sublayers(text);
    if ordered.contains(f) {
        None
    } else {
        let at = if index < ordered.len() {
            index
        } else {
            ordered.len() as int
        };
        Some(spec_rewrite_sublayers(text, ordered.insert(at, f)))
    }
}

/// `None` when the layer is already in the stack (nothing to write).
pub open spec fn spec_append_sublayer(text: Seq<char>, filename: Seq<char>) -> Option<Seq<char>> {
    let f = spec_normalize_layer_filename(filename);
    let ordered = spec_parse_sublayers(text);
    if ordered.contains(f) {
        None
    } else {
        Some(spec_rewrite_sublayers(text, ordered.push(f)))
    }
}

pub open spec fn reorder_out_of_bounds_msg() -> Seq<char> {
    "Layer reorder out-of-bounds."@
}

pub open spec fn not_found_msg(f: Seq<char>) -> Seq<char> {
    "Sublayer not found in stack: "@ + f
}

pub open spec fn spec_reorder_sublayer(text: Seq<char>, from: int, to: int) -> Result<
    Seq<char>,
    Seq<char>,
> {
    let paths = spec_parse_sublayers(text);
    if from >= paths.len() || to >= paths.len() {
        Err(reorder_out_of_bounds_msg())
    } else {
        Ok(spec_rewrite_sublayers(text, paths.remove(from).insert(to, paths[from])))
    }
}

/// `names` without any entry equal to `f`.
pub open spec fn without_name(names: Seq<Seq<char>>, f: Seq<char>) -> Seq<Seq<char>> {
    names.filter(differs_from(f))
}

pub open spec fn differs_from(f: Seq<char>) -> spec_fn(Seq<char>) -> bool {
    |p: Seq<char>| p != f
}

pub open spec fn spec_remove_sublayer(text: Seq<char>, filename: Seq<char>) -> Result<
    Seq<char>,
    Seq<char>,
> {
    let f = spec_normalize_layer_filename(filename);
    let paths = spec_parse_sublayers(text);
    let kept = without_name(paths, f);
    if kept.len() == paths.len() {
        Err(not_found_msg(f))
    } else {
        Ok(spec_rewrite_sublayers(text, kept))
    }
}

fn normalize_chars(filename: &[char]) -> (out: Vec<char>)
    ensures
        out@ == spec_normalize_layer_filename(filename@),
{
    let leaf = match file_name_of(filename) {
        Some(n) => n,
        None => slice_of(filename, 0, filename.len()),
    };
    assert(filename@.subrange(0, filename@.len() as int) =~= filename@);
    let usda = v_ext_usda();
    let usd = v_ext_usd();
    if ends_with_chars(&leaf, &usda) || ends_with_chars(&leaf, &usd) {
        leaf
    } else {
        let mut out = leaf;
        append_chars(&mut out, &usda);
        out
    }
}

/// `Path::file_name` of `filename`, with `.usda` added when it has no
/// `.usda` / `.usd` extension.
pub fn normalize_layer_filename(filename: &str) -> (r: String)
    ensures
        r@ == spec_normalize_layer_filename(filename@),
{
    let cs = chars_of(filename);
    let out = normalize_chars(&cs);
    string_of(&out)
}

fn position_of(names: &Vec<Vec<char>>, f: &Vec<char>) -> (r: Option<usize>)
    ensures
        r matches Some(i) ==> i < names@.len() && views(names@)[i as int] == f@,
        r is None <==> !views(names@).contains(f@),
{
    let mut i: usize = 0;
    while i < names.len()
        invariant
            i <= names@.len(),
            forall|k: int| 0 <= k < i ==> views(names@)[k] != f@,
        decreases names.len() - i,
    {
        if crate::text::seq_eq(&names[i], f) {
            assert(views(names@)[i as int] == f@);
            return Some(i);
        }
        i = i + 1;
    }
    assert(!views(names@).contains(f@));
    None
}

/// The root layer text after inserting `filename` (normalized) at `index`
/// (clamped to the end); `None` when it is already in the stack.
pub fn insert_sublayer_text(root_text: &str, index: usize, filename: &str) -> (r: Option<String>)
    ensures
        r matches Some(s) ==> spec_insert_sublayer(root_text@, index as int, filename@) == Some(
            s@,
        ),
        r is None ==> spec_insert_sublayer(root_text@, index as int, filename@) is None,
{
    let cs = chars_of(root_text);
    let fc = chars_of(filename);
    let f = normalize_chars(&fc);
    let mut ordered = parse_chars(&cs);
    if position_of(&ordered, &f).is_some() {
        return None;
    }
    let at = if index < ordered.len() {
        index
    } else {
        ordered.len()
    };
    let ghost before = views(ordered@);
    ordered.insert(at, f);
    assert(views(ordered@) =~= before.insert(at as int, spec_normalize_layer_filename(filename@)));
    let out = replace_block_of(&cs, &ordered);
    Some(string_of(&out))
}

/// The root layer text with `filename` (normalized) in the strongest, front
/// slot; `None` when it is already in the stack.
pub fn prepend_sublayer(root_text: &str, filename: &str) -> (r: Option<String>)
    ensures
        r matches Some(s) ==> spec_insert_sublayer(root_text@, 0, filename@) == Some(s@),
        r is None ==> spec_insert_sublayer(root_text@, 0, filename@) is None,
{
    insert_sublayer_text(root_text, 0, filename)
}

/// The root layer text after appending `filename` (normalized); `None` when
/// it is already in the stack.
pub fn append_sublayer_text(root_text: &str, filename: &str) -> (r: Option<String>)
    ensures
        r matches Some(s) ==> spec_append_sublayer(root_text@, filename@) == Some(s@),
        r is None ==> spec_append_sublayer(root_text@, filename@) is None,
{
    let cs = chars_of(root_text);
    let fc = chars_of(filename);
    let f = normalize_chars(&fc);
    let mut ordered = parse_chars(&cs);
    if position_of(&ordered, &f).is_some() {
        return None;
    }
    let ghost before = views(ordered@);
    ordered.push(f);
    assert(views(ordered@) =~= before.push(spec_normalize_layer_filename(filename@)));
    let out = replace_block_of(&cs, &ordered);
    Some(string_of(&out))
}

/// The root layer text after moving the layer at `from_index` to `to_index`.
pub fn reorder_sublayer_text(root_text: &str, from_index: usize, to_index: usize) -> (r: Result<
    String,
    String,
>)
    ensures
        r matches Ok(s) ==> spec_reorder_sublayer(root_text@, from_index as int, to_index as int)
            == Ok::<Seq<char>, Seq<char>>(s@),
        r matches Err(e) ==> spec_reorder_sublayer(root_text@, from_index as int, to_index as int)
            == Err::<Seq<char>, Seq<char>>(e@),
{
    let cs = chars_of(root_text);
    let mut paths = parse_chars(&cs);
    if from_index >= paths.len() || to_index >= paths.len() {
        return Err("Layer reorder out-of-bounds.".to_owned());
    }
    let ghost before = views(paths@);
    let target = paths.remove(from_index);
    paths.insert(to_index, target);
    assert(views(paths@) =~= before.remove(from_index as int).insert(
        to_index as int,
        before[from_index as int],
    ));
    let out = replace_block_of(&cs, &paths);
    Ok(string_of(&out))
}

/// The root layer text without `filename` (normalized) in its stack.
pub fn remove_sublayer_text(root_text: &str, filename: &str) -> (r: Result<String, String>)
    ensures
        r matches Ok(s) ==> spec_remove_sublayer(root_text@, filename@) == Ok::<
            Seq<char>,
            Seq<char>,
        >(s@),
        r matches Err(e) ==> spec_remove_sublayer(root_text@, filename@) == Err::<
            Seq<char>,
            Seq<char>,
        >(e@),
{
    let cs = chars_of(root_text);
    let fc = chars_of(filename);
    let f = normalize_chars(&fc);
    let paths = parse_chars(&cs);
    let mut kept: Vec<Vec<char>> = Vec::new();
    let mut i: usize = 0;
    while i < paths.len()
        invariant
            i <= paths@.len(),
            views(kept@) == without_name(views(paths@).subrange(0, i as int), f@),
        decreases paths.len() - i,
    {
        let ghost before = kept@;
        proof {
            reveal(Seq::filter);
            let s1 = views(paths@).subrange(0, i + 1);
            assert(s1.drop_last() =~= views(paths@).subrange(0, i as int));
        }
        if !crate::text::seq_eq(&paths[i], &f) {
            kept.push(slice_of(&paths[i], 0, paths[i].len()));
            assert(paths@[i as int]@.subrange(0, paths@[i as int]@.len() as int) =~= paths@[i as int]@);
            assert(views(kept@) =~= views(before).push(views(paths@)[i as int]));
        }
        i = i + 1;
    }
    assert(views(paths@).subrange(0, paths@.len() as int) =~= views(paths@));
    if kept.len() == paths.len() {
        let mut msg = chars_of("Sublayer not found in stack: ");
        append_chars(&mut msg, &f);
        return Err(string_of(&msg));
    }
    let out = replace_block_of(&cs, &kept);
    Ok(string_of(&out))
}

// ---------------------------------------------------------------------------
// Reading back what was written
// ---------------------------------------------------------------------------

/// A layer file name that survives a write and a read of the block: not empty,
/// not `.` or `..`, and free of `/`, line breaks and `]`.
pub open spec fn plain_layer_name(n: Seq<char>) -> bool {
    &&& n.len() > 0
    &&& n != seq!['.']
    &&& n != seq!['.', '.']
    &&& forall|k: int| 0 <= k < n.len() ==> #[trigger] n[k] != '/' && n[k] != '\n' && n[k] != ']'
}

proof fn lemma_skip_ws_to(s: Seq<char>, i: int, j: int)
    requires
        0 <= i <= j <= s.len(),
        forall|k: int| i <= k < j ==> is_ws(#[trigger] s[k]),
        j < s.len() ==> !is_ws(s[j]),
    ensures
        skip_ws_from(s, i) == j,
    decreases j - i,
{
    if i < j {
        lemma_skip_ws_to(s, i + 1, j);
    }
}

/// Blanks before a word that starts and ends with a non-blank are trimmed away.
proof fn lemma_trim_padded(pre: Seq<char>, r: Seq<char>)
    requires
        forall|k: int| 0 <= k < pre.len() ==> is_ws(#[trigger] pre[k]),
        r.len() > 0,
        !is_ws(r[0]),
        !is_ws(r.last()),
    ensures
        trim(pre + r) == r,
{
    let x = pre + r;
    lemma_skip_ws_to(x, 0, pre.len() as int);
    let t = x.subrange(pre.len() as int, x.len() as int);
    assert(t =~= r);
    assert(back_ws_from(r, r.len() as int) == r.len());
    assert(r.subrange(0, r.len() as int) =~= r);
}

proof fn lemma_seg_start_at(p: Seq<char>, j: int, k: int)
    requires
        0 < k <= j <= p.len(),
        p[k - 1] == '/',
        forall|m: int| k <= m < j ==> #[trigger] p[m] != '/',
    ensures
        seg_start(p, j) == k,
    decreases j - k,
{
    if j > k {
        lemma_seg_start_at(p, j - 1, k);
    }
}

proof fn lemma_file_name_of_dot_slash(n: Seq<char>)
    requires
        plain_layer_name(n),
    ensures
        path_file_name(seq!['.', '/'] + n) == Some(n),
{
    let p = seq!['.', '/'] + n;
    let j = p.len() as int;
    assert(p[j - 1] == n[n.len() - 1]);
    assert(p[j - 1] != '/');
    assert forall|m: int| 2 <= m < j implies #[trigger] p[m] != '/' by {
        assert(p[m] == n[m - 2]);
    }
    lemma_seg_start_at(p, j, 2);
    assert(p.subrange(2, j) =~= n);
}

/// What the reader makes of one written reference line.
proof fn lemma_ref_line_token(n: Seq<char>)
    requires
        plain_layer_name(n),
    ensures
        sublayer_token(ref_indent() + sublayer_ref(n)) == sublayer_ref(n),
        ref_filename(sublayer_ref(n)) == Some(n),
{
    let r = sublayer_ref(n);
    assert(r[0] == '@');
    assert(r.last() == '@');
    lemma_trim_padded(ref_indent(), r);
    assert(strip_trailing(r, ',') == r);
    lemma_trim_padded(Seq::<char>::empty(), r);
    assert(Seq::<char>::empty() + r =~= r);
    assert(r.subrange(1, r.len() - 1) =~= seq!['.', '/'] + n);
    lemma_file_name_of_dot_slash(n);
}

proof fn lemma_next_nl_skip(s: Seq<char>, i: int, j: int)
    requires
        0 <= i <= j <= s.len(),
        forall|k: int| i <= k < j ==> #[trigger] s[k] != '\n',
    ensures
        next_nl(s, i) == next_nl(s, j),
    decreases j - i,
{
    if i < j {
        lemma_next_nl_skip(s, i + 1, j);
    }
}

/// One written reference line, read at `i`, gives its name.
proof fn lemma_read_ref_line(s: Seq<char>, i: int, n: Seq<char>)
    requires
        plain_layer_name(n),
        0 <= i,
        i + ref_line(sublayer_ref(n)).len() <= s.len(),
        s.subrange(i, i + ref_line(sublayer_ref(n)).len()) == ref_line(sublayer_ref(n)),
    ensures
        filenames_from(s, i) == seq![n] + filenames_from(s, i + ref_line(sublayer_ref(n)).len()),
{
    let l = ref_line(sublayer_ref(n));
    let m = l.len() as int;
    let body = ref_indent() + sublayer_ref(n);
    assert(l =~= body + seq!['\n']);
    assert forall|k: int| i <= k < i + m - 1 implies #[trigger] s[k] != '\n' by {
        assert(s[k] == l[k - i]);
        assert(l[k - i] == body[k - i]);
        if k - i >= 11 && k - i < 11 + n.len() {
            assert(body[k - i] == n[k - i - 11]);
        }
    }
    assert(s[i + m - 1] == l[m - 1]);
    lemma_next_nl_skip(s, i, i + m - 1);
    assert(next_nl(s, i) == i + m - 1);
    assert(s.subrange(i, i + m - 1) =~= body);
    assert(body.last() == '@');
    assert(line_at(s, i) == body);
    lemma_ref_line_token(n);
}

pub proof fn lemma_refs_of_drop_first(names: Seq<Seq<char>>)
    requires
        names.len() > 0,
    ensures
        refs_of(names).drop_first() == refs_of(names.drop_first()),
{
    assert(refs_of(names).drop_first() =~= refs_of(names.drop_first()));
}

/// The written reference lines, read from `i`, give the names in order.
proof fn lemma_read_ref_lines(s: Seq<char>, i: int, names: Seq<Seq<char>>)
    requires
        forall|k: int| 0 <= k < names.len() ==> plain_layer_name(#[trigger] names[k]),
        0 <= i,
        i + render_lines(refs_of(names)).len() <= s.len(),
        s.subrange(i, i + render_lines(refs_of(names)).len()) == render_lines(refs_of(names)),
    ensures
        filenames_from(s, i) == names + filenames_from(
            s,
            i + render_lines(refs_of(names)).len(),
        ),
    decreases names.len(),
{
    let all = render_lines(refs_of(names));
    if names.len() == 0 {
        assert(names + filenames_from(s, i) =~= filenames_from(s, i));
    } else {
        let n = names[0];
        let rest = names.drop_first();
        lemma_refs_of_drop_first(names);
        let l = ref_line(sublayer_ref(n));
        let tail = render_lines(refs_of(rest));
        assert(all == l + tail);
        assert(s.subrange(i, i + l.len()) =~= l) by {
            assert forall|k: int| 0 <= k < l.len() implies s.subrange(i, i + l.len())[k] == l[k] by {
                assert(s.subrange(i, i + all.len())[k] == all[k]);
            }
        }
        lemma_read_ref_line(s, i, n);
        assert(s.subrange(i + l.len(), i + l.len() + tail.len()) =~= tail) by {
            assert forall|k: int| 0 <= k < tail.len() implies s.subrange(
                i + l.len(),
                i + l.len() + tail.len(),
            )[k] == tail[k] by {
                assert(s.subrange(i, i + all.len())[l.len() + k] == all[l.len() + k]);
            }
        }
        assert forall|k: int| 0 <= k < rest.len() implies plain_layer_name(#[trigger] rest[k]) by {
            assert(rest[k] == names[k + 1]);
        }
        lemma_read_ref_lines(s, i + l.len(), rest);
        assert(names =~= seq![n] + rest);
        assert(seq![n] + (rest + filenames_from(s, i + l.len() + tail.len())) =~= names
            + filenames_from(s, i + all.len()));
    }
}


proof fn lemma_find_skip(s: Seq<char>, pat: Seq<char>, i: int, k: int)
    requires
        0 <= i <= k,
        forall|j: int| i <= j < k ==> !occurs_at(s, pat, j),
    ensures
        find_from(s, pat, i) == find_from(s, pat, k),
    decreases k - i,
{
    if i < k {
        lemma_find_skip(s, pat, i + 1, k);
    }
}

proof fn lemma_lines_have_no_close_bracket(names: Seq<Seq<char>>)
    requires
        forall|k: int| 0 <= k < names.len() ==> plain_layer_name(#[trigger] names[k]),
    ensures
        forall|k: int|
            0 <= k < render_lines(refs_of(names)).len() ==> #[trigger] render_lines(
                refs_of(names),
            )[k] != ']',
    decreases names.len(),
{
    if names.len() > 0 {
        let n = names[0];
        let rest = names.drop_first();
        lemma_refs_of_drop_first(names);
        assert forall|k: int| 0 <= k < rest.len() implies plain_layer_name(#[trigger] rest[k]) by {
            assert(rest[k] == names[k + 1]);
        }
        lemma_lines_have_no_close_bracket(rest);
        let l = ref_line(sublayer_ref(n));
        let tail = render_lines(refs_of(rest));
        assert(render_lines(refs_of(names)) == l + tail);
        assert forall|k: int| 0 <= k < l.len() implies #[trigger] l[k] != ']' by {
            if 11 <= k < 11 + n.len() {
                assert(l[k] == n[k - 11]);
            }
        }
        assert forall|k: int|
            0 <= k < render_lines(refs_of(names)).len() implies #[trigger] render_lines(
                refs_of(names),
            )[k] != ']' by {
            if k < l.len() {
                assert(render_lines(refs_of(names))[k] == l[k]);
            } else {
                assert(render_lines(refs_of(names))[k] == tail[k - l.len()]);
            }
        }
    }
}

/// The lines of a rendered block, read from its `[`, give back the names.
proof fn lemma_read_rendered_block(names: Seq<Seq<char>>)
    requires
        forall|k: int| 0 <= k < names.len() ==> plain_layer_name(#[trigger] names[k]),
    ensures
        filenames_from(
            seq!['[', '\n'] + render_lines(refs_of(names)) + block_tail(),
            0,
        ) == names,
{
    let lines = render_lines(refs_of(names));
    let b = seq!['[', '\n'] + lines + block_tail();
    let p = 2 + lines.len() as int;
    // First line: a lone `[`.
    assert(b[0] == '[');
    assert(b[1] == '\n');
    assert(next_nl(b, 1) == 1);
    assert(next_nl(b, 0) == 1);
    assert(b.subrange(0, 1) =~= seq!['[']);
    assert(line_at(b, 0) == seq!['[']);
    lemma_trim_padded(Seq::<char>::empty(), seq!['[']);
    assert(Seq::<char>::empty() + seq!['['] =~= seq!['[']);
    assert(strip_trailing(seq!['['], ',') == seq!['[']);
    assert(sublayer_token(seq!['[']) == seq!['[']);
    assert(ref_filename(seq!['[']) is None);
    assert(filenames_from(b, 0) == filenames_from(b, 2));
    // The reference lines.
    assert(b.subrange(2, p) =~= lines);
    lemma_read_ref_lines(b, 2, names);
    // Last line: `    ]`.
    assert forall|k: int| p <= k < b.len() implies #[trigger] b[k] != '\n' by {
        assert(b[k] == block_tail()[k - p]);
    }
    lemma_next_nl_skip(b, p, b.len() as int);
    assert(b.subrange(p, b.len() as int) =~= block_tail());
    assert(line_at(b, p) == block_tail());
    assert(block_tail() =~= seq![' ', ' ', ' ', ' '] + seq![']']);
    lemma_trim_padded(seq![' ', ' ', ' ', ' '], seq![']']);
    assert(strip_trailing(seq![']'], ',') == seq![']']);
    assert(sublayer_token(block_tail()) == seq![']']);
    assert(ref_filename(seq![']']) is None);
    assert(filenames_from(b, p) =~= Seq::<Seq<char>>::empty());
    assert(names + Seq::<Seq<char>>::empty() =~= names);
}

/// A rendered block at `i` is the one the reader picks when the search for
/// `subLayers` stops at `s` no later than its own keyword and no `[` lies
/// between `s` and the block's `[`.
proof fn lemma_parse_rendered_at(t: Seq<char>, i: int, s: int, names: Seq<Seq<char>>)
    requires
        forall|k: int| 0 <= k < names.len() ==> plain_layer_name(#[trigger] names[k]),
        0 <= i,
        i + render_block(refs_of(names)).len() <= t.len(),
        t.subrange(i, i + render_block(refs_of(names)).len()) == render_block(refs_of(names)),
        find(t, kw_sublayers()) == Some(s),
        s <= i + 4,
        forall|k: int| s <= k < i + 16 ==> #[trigger] t[k] != '[',
    ensures
        spec_parse_sublayers(t) == names,
{
    let r = render_block(refs_of(names));
    let lines = render_lines(refs_of(names));
    let m = r.len() as int;
    assert(r == block_head() + lines + block_tail());
    lemma_find_from_props(t, kw_sublayers(), 0);
    assert(0 <= s);
    assert(t[i + 16] == r[16]);
    assert forall|j: int| s <= j < i + 16 implies !occurs_at(t, seq!['['], j) by {
        if occurs_at(t, seq!['['], j) {
            assert(t.subrange(j, j + 1)[0] == t[j]);
        }
    }
    lemma_find_skip(t, seq!['['], s, i + 16);
    assert(t.subrange(i + 16, i + 17) =~= seq!['[']);
    assert(find_from(t, seq!['['], s) == Some(i + 16));
    lemma_lines_have_no_close_bracket(names);
    assert forall|j: int| i + 16 <= j < i + m - 1 implies !occurs_at(t, seq![']'], j) by {
        assert(t[j] == r[j - i]);
        if j - i >= 18 && j - i < 18 + lines.len() {
            assert(r[j - i] == lines[j - i - 18]);
        }
        if occurs_at(t, seq![']'], j) {
            assert(t.subrange(j, j + 1)[0] == t[j]);
        }
    }
    lemma_find_skip(t, seq![']'], i + 16, i + m - 1);
    assert(t[i + m - 1] == r[m - 1]);
    assert(t.subrange(i + m - 1, i + m) =~= seq![']']);
    assert(find_from(t, seq![']'], i + 16) == Some(i + m - 1));
    assert(sublayers_block(t) == Some((i + 16, i + m)));
    let blk = seq!['[', '\n'] + lines + block_tail();
    assert(r.subrange(16, m) =~= blk) by {
        assert(block_head().subrange(16, 18) =~= seq!['[', '\n']);
    }
    assert(t.subrange(i + 16, i + m) =~= blk) by {
        assert forall|k: int| 0 <= k < m - 16 implies t.subrange(i + 16, i + m)[k] == blk[k] by {
            assert(t[i + 16 + k] == r[16 + k]);
            assert(r.subrange(16, m)[k] == r[16 + k]);
        }
    }
    lemma_read_rendered_block(names);
}

/// With no `subLayers` ending before `i`, the first one found is the
/// rendered block's own.
proof fn lemma_first_keyword_rendered(t: Seq<char>, i: int, names: Seq<Seq<char>>)
    requires
        0 <= i,
        i + render_block(refs_of(names)).len() <= t.len(),
        t.subrange(i, i + render_block(refs_of(names)).len()) == render_block(refs_of(names)),
        forall|j: int| 0 <= j && j + 9 <= i ==> !occurs_at(t, kw_sublayers(), j),
    ensures
        find(t, kw_sublayers()) == Some(i + 4),
{
    let r = render_block(refs_of(names));
    let kw = kw_sublayers();
    assert(r == block_head() + render_lines(refs_of(names)) + block_tail());
    assert forall|j: int| 0 <= j < i + 4 implies !occurs_at(t, kw, j) by {
        if j + 9 > i && occurs_at(t, kw, j) {
            let q = if j >= i {
                j
            } else {
                i
            };
            assert(t[q] == r[q - i]);
            assert(t[q] == ' ');
            assert(t.subrange(j, j + 9)[q - j] == t[q]);
            assert(kw[q - j] != ' ');
        }
    }
    lemma_find_skip(t, kw, 0, i + 4);
    assert(t.subrange(i + 4, i + 13) =~= kw) by {
        assert forall|k: int| 0 <= k < 9 implies t.subrange(i + 4, i + 13)[k] == kw[k] by {
            assert(t[i + 4 + k] == r[4 + k]);
        }
    }
}

/// Reading a rendered block gives back the names it was written from.
pub proof fn lemma_rendered_block_reads_back(names: Seq<Seq<char>>)
    requires
        forall|k: int| 0 <= k < names.len() ==> plain_layer_name(#[trigger] names[k]),
    ensures
        spec_parse_sublayers(render_block(refs_of(names))) == names,
{
    let r = render_block(refs_of(names));
    assert(r.subrange(0, r.len() as int) =~= r);
    lemma_first_keyword_rendered(r, 0, names);
    lemma_parse_rendered_at(r, 0, 4, names);
}


/// Equal prefixes have equal nine-character windows.
proof fn lemma_same_window(t: Seq<char>, text: Seq<char>, i: int, j: int)
    requires
        0 <= j,
        j + 9 <= i <= t.len(),
        i <= text.len(),
        t.subrange(0, i) == text.subrange(0, i),
    ensures
        t.subrange(j, j + 9) == text.subrange(j, j + 9),
{
    assert forall|k: int| 0 <= k < 9 implies #[trigger] t.subrange(j, j + 9)[k] == text.subrange(
        j,
        j + 9,
    )[k] by {
        assert(t.subrange(0, i)[j + k] == t[j + k]);
        assert(text.subrange(0, i)[j + k] == text[j + k]);
        assert(t.subrange(0, i)[j + k] == text.subrange(0, i)[j + k]);
    }
    assert(t.subrange(j, j + 9) =~= text.subrange(j, j + 9));
}

/// `t` agrees with `text` on `[0, i)`, `text` has no `subLayers` before `s0`,
/// so no window of `t` that ends by `i` and starts before `s0` holds one.
proof fn lemma_prefix_windows(t: Seq<char>, text: Seq<char>, i: int, s0: int)
    requires
        0 <= i <= t.len(),
        i <= text.len(),
        t.subrange(0, i) == text.subrange(0, i),
        forall|j: int| 0 <= j < s0 ==> !occurs_at(text, kw_sublayers(), j),
    ensures
        forall|j: int|
            0 <= j < s0 && j + 9 <= i ==> !occurs_at(t, kw_sublayers(), j),
{
    assert forall|j: int| 0 <= j < s0 && j + 9 <= i implies !occurs_at(t, kw_sublayers(), j) by {
        lemma_same_window(t, text, i, j);
        assert(!occurs_at(text, kw_sublayers(), j));
    }
}

/// A rendered block body at `j`, where the search for `subLayers` stops, is
/// the block the reader picks, and its lines give back the names.
proof fn lemma_parse_body_at(t: Seq<char>, j: int, names: Seq<Seq<char>>)
    requires
        forall|k: int| 0 <= k < names.len() ==> plain_layer_name(#[trigger] names[k]),
        0 <= j,
        j + render_body(refs_of(names)).len() <= t.len(),
        t.subrange(j, j + render_body(refs_of(names)).len()) == render_body(refs_of(names)),
        find(t, kw_sublayers()) == Some(j),
    ensures
        spec_parse_sublayers(t) == names,
{
    let r = render_body(refs_of(names));
    let lines = render_lines(refs_of(names));
    let m = r.len() as int;
    assert forall|k: int| 0 <= k < m implies #[trigger] t[j + k] == r[k] by {
        assert(t.subrange(j, j + m)[k] == t[j + k]);
    }
    assert(t[j + 12] == r[12]);
    assert forall|q: int| j <= q < j + 12 implies !occurs_at(t, seq!['['], q) by {
        assert(t[q] == r[q - j]);
        if occurs_at(t, seq!['['], q) {
            assert(t.subrange(q, q + 1)[0] == t[q]);
        }
    }
    lemma_find_skip(t, seq!['['], j, j + 12);
    assert(t.subrange(j + 12, j + 13) =~= seq!['[']);
    assert(find_from(t, seq!['['], j) == Some(j + 12));
    lemma_lines_have_no_close_bracket(names);
    assert forall|q: int| j + 12 <= q < j + m - 1 implies !occurs_at(t, seq![']'], q) by {
        assert(t[q] == r[q - j]);
        if q - j >= 14 && q - j < 14 + lines.len() {
            assert(r[q - j] == lines[q - j - 14]);
        }
        if occurs_at(t, seq![']'], q) {
            assert(t.subrange(q, q + 1)[0] == t[q]);
        }
    }
    lemma_find_skip(t, seq![']'], j + 12, j + m - 1);
    assert(t[j + m - 1] == r[m - 1]);
    assert(t.subrange(j + m - 1, j + m) =~= seq![']']);
    assert(find_from(t, seq![']'], j + 12) == Some(j + m - 1));
    assert(sublayers_block(t) == Some((j + 12, j + m)));
    let blk = seq!['[', '\n'] + lines + block_tail();
    assert(t.subrange(j + 12, j + m) =~= blk) by {
        assert forall|k: int| 0 <= k < m - 12 implies #[trigger] t.subrange(j + 12, j + m)[k] == blk[k] by {
            assert(t[j + 12 + k] == r[12 + k]);
        }
    }
    lemma_read_rendered_block(names);
}

/// Rewriting a root layer that has a sublayer block: the rendered block takes
/// the place of the old one, key included, and is the one read back.
#[verifier::spinoff_prover]
proof fn lemma_rewrite_block_reads_back(text: Seq<char>, names: Seq<Seq<char>>)
    requires
        forall|k: int| 0 <= k < names.len() ==> plain_layer_name(#[trigger] names[k]),
        sublayers_block(text) is Some,
    ensures
        spec_parse_sublayers(spec_rewrite_sublayers(text, names)) == names,
{
    let refs = refs_of(names);
    let body = render_body(refs);
    let kw = kw_sublayers();
    let t = spec_rewrite_sublayers(text, names);
    lemma_find_from_props(text, kw, 0);
    let (a, b) = sublayers_block(text)->0;
    let s0 = find(text, kw)->0;
    lemma_find_from_props(text, seq!['['], s0);
    lemma_find_from_props(text, seq![']'], a);
    assert(s0 <= a < b <= text.len());
    assert(t == text.subrange(0, s0) + body + text.subrange(b, text.len() as int));
    assert(t.subrange(s0, s0 + body.len()) =~= body);
    assert(occurs_at(text, kw, s0));
    assert(s0 + 9 <= text.len());
    assert(s0 + 9 <= t.len());
    assert(t.subrange(0, s0 + 9) =~= text.subrange(0, s0 + 9)) by {
        assert forall|k: int| 0 <= k < s0 + 9 implies #[trigger] t.subrange(0, s0 + 9)[k] == text.subrange(0, s0 + 9)[k] by {
            if k >= s0 {
                assert(t[k] == body[k - s0]);
                assert(body[k - s0] == kw[k - s0]);
                assert(text.subrange(s0, s0 + 9)[k - s0] == text[k]);
            }
        }
    }
    lemma_prefix_windows(t, text, s0 + 9, s0);
    lemma_find_skip(t, kw, 0, s0);
    assert(t.subrange(s0, s0 + 9) =~= kw) by {
        assert forall|k: int| 0 <= k < 9 implies #[trigger] t.subrange(s0, s0 + 9)[k] == kw[k] by {
            assert(t[s0 + k] == body[k]);
        }
    }
    assert(find(t, kw) == Some(s0));
    lemma_parse_body_at(t, s0, names);
}

/// Rewriting a root layer with no `subLayers` at all: the new block goes in
/// before the metadata close (or at the end) and is the one read back.
#[verifier::spinoff_prover]
proof fn lemma_rewrite_fresh_reads_back(text: Seq<char>, names: Seq<Seq<char>>)
    requires
        forall|k: int| 0 <= k < names.len() ==> plain_layer_name(#[trigger] names[k]),
        find(text, kw_sublayers()) is None,
    ensures
        spec_parse_sublayers(spec_rewrite_sublayers(text, names)) == names,
{
    let refs = refs_of(names);
    let r = render_block(refs);
    let kw = kw_sublayers();
    let t = spec_rewrite_sublayers(text, names);
    assert(r == block_head() + render_lines(refs) + block_tail());
    lemma_find_from_props(text, kw, 0);
    assert(sublayers_block(text) is None);
    let cp = match find(text, metadata_close()) {
        Some(c) => c,
        None => text.len() as int,
    };
    lemma_find_from_props(text, metadata_close(), 0);
    let i = cp + 1;
    assert(t == text.subrange(0, cp) + seq!['\n'] + r + text.subrange(cp, text.len() as int)) by {
        if find(text, metadata_close()) is None {
            assert(text.subrange(0, cp) =~= text);
            assert(text.subrange(cp, text.len() as int) =~= Seq::<char>::empty());
            assert(text + seq!['\n'] + r =~= text.subrange(0, cp) + seq!['\n'] + r
                + text.subrange(cp, text.len() as int));
        }
    }
    assert(t.subrange(i, i + r.len()) =~= r);
    assert(t[cp] == '\n');
    assert(t.subrange(0, cp) =~= text.subrange(0, cp));
    assert forall|j: int| 0 <= j && j + 9 <= i implies !occurs_at(t, kw, j) by {
        if occurs_at(t, kw, j) {
            if j + 9 <= cp {
                lemma_same_window(t, text, cp, j);
                assert(!occurs_at(text, kw, j));
            } else {
                assert(t.subrange(j, j + 9)[cp - j] == t[cp]);
                assert(kw[cp - j] != '\n');
            }
        }
    }
    lemma_first_keyword_rendered(t, i, names);
    assert forall|k: int| i + 4 <= k < i + 16 implies #[trigger] t[k] != '[' by {
        assert(t[k] == r[k - i]);
    }
    lemma_parse_rendered_at(t, i, i + 4, names);
}

/// Writing plain names into a root layer and reading the list back gives the
/// same names, for a root layer that has a complete sublayer block or no
/// `subLayers` keyword at all.
pub proof fn lemma_rewrite_reads_back(text: Seq<char>, names: Seq<Seq<char>>)
    requires
        forall|k: int| 0 <= k < names.len() ==> plain_layer_name(#[trigger] names[k]),
        sublayers_block(text) is Some || find(text, kw_sublayers()) is None,
    ensures
        spec_parse_sublayers(spec_rewrite_sublayers(text, names)) == names,
{
    if sublayers_block(text) is Some {
        lemma_rewrite_block_reads_back(text, names);
    } else {
        lemma_rewrite_fresh_reads_back(text, names);
    }
}


/// No character of `s` is `c`.
pub open spec fn free_of(s: Seq<char>, c: char) -> bool {
    forall|k: int| 0 <= k < s.len() ==> #[trigger] s[k] != c
}

proof fn lemma_trim_free_of(x: Seq<char>, c: char)
    requires
        free_of(x, c),
    ensures
        free_of(trim(x), c),
{
    lemma_skip_ws_bounds(x, 0);
    let y = x.subrange(skip_ws_from(x, 0), x.len() as int);
    lemma_back_ws_bounds(y, y.len() as int);
    assert forall|k: int| 0 <= k < trim(x).len() implies #[trigger] trim(x)[k] != c by {
        assert(trim(x)[k] == y[k]);
        assert(y[k] == x[skip_ws_from(x, 0) + k]);
    }
}

proof fn lemma_strip_trailing_free_of(x: Seq<char>, d: char, c: char)
    requires
        free_of(x, c),
    ensures
        free_of(strip_trailing(x, d), c),
    decreases x.len(),
{
    if x.len() > 0 && x.last() == d {
        assert forall|k: int| 0 <= k < x.drop_last().len() implies #[trigger] x.drop_last()[k]
            != c by {
            assert(x.drop_last()[k] == x[k]);
        }
        lemma_strip_trailing_free_of(x.drop_last(), d, c);
    }
}

/// A file name found in a path is a plain name made of the path's characters.
proof fn lemma_file_name_upto_plain(p: Seq<char>, j: int, c: char)
    requires
        0 <= j <= p.len(),
    ensures
        file_name_upto(p, j) matches Some(n) ==> {
            &&& n.len() > 0
            &&& n != seq!['.']
            &&& n != seq!['.', '.']
            &&& free_of(n, '/')
            &&& (free_of(p, c) ==> free_of(n, c))
        },
    decreases j,
{
    if j > 0 {
        if p[j - 1] == '/' {
            lemma_file_name_upto_plain(p, j - 1, c);
        } else {
            lemma_seg_start(p, j);
            let k = seg_start(p, j);
            let seg = p.subrange(k, j);
            if seg == seq!['.'] {
                if k > 0 {
                    lemma_file_name_upto_plain(p, k, c);
                }
            } else if seg != seq!['.', '.'] {
                assert forall|m: int| 0 <= m < seg.len() implies #[trigger] seg[m] != '/' by {
                    assert(seg[m] == p[k + m]);
                }
                assert(free_of(p, c) ==> free_of(seg, c)) by {
                    if free_of(p, c) {
                        assert forall|m: int| 0 <= m < seg.len() implies #[trigger] seg[m] != c by {
                            assert(seg[m] == p[k + m]);
                        }
                    }
                }
            }
        }
    }
}

/// A trimmed string keeps a non-blank last character.
proof fn lemma_trim_keeps_last(x: Seq<char>)
    requires
        x.len() > 0,
        !is_ws(x.last()),
    ensures
        trim(x).len() > 0,
        trim(x).last() == x.last(),
{
    lemma_skip_ws_bounds(x, 0);
    let a = skip_ws_from(x, 0);
    if a >= x.len() {
        assert(is_ws(x[x.len() - 1]));
    }
    let y = x.subrange(a, x.len() as int);
    assert(y.last() == x.last());
    assert(back_ws_from(y, y.len() as int) == y.len());
    assert(y.subrange(0, y.len() as int) =~= y);
}

proof fn lemma_next_nl_free(s: Seq<char>, i: int)
    requires
        0 <= i <= s.len(),
    ensures
        forall|k: int| i <= k < next_nl(s, i) ==> #[trigger] s[k] != '\n',
    decreases s.len() - i,
{
    if i < s.len() && s[i] != '\n' {
        lemma_next_nl_free(s, i + 1);
    }
}

/// The names read from a block whose only `]` is its last character are plain.
proof fn lemma_block_names_plain(b: Seq<char>, i: int)
    requires
        b.len() > 0,
        b.last() == ']',
        forall|k: int| 0 <= k < b.len() - 1 ==> #[trigger] b[k] != ']',
        0 <= i,
    ensures
        forall|m: int|
            0 <= m < filenames_from(b, i).len() ==> plain_layer_name(
                #[trigger] filenames_from(b, i)[m],
            ),
    decreases b.len() - i,
{
    if i < b.len() {
        lemma_next_nl(b, i);
        lemma_next_nl_free(b, i);
        let e = next_nl(b, i);
        let line = line_at(b, i);
        let tok = sublayer_token(line);
        let raw = b.subrange(i, e);
        assert(free_of(raw, '\n')) by {
            assert forall|k: int| 0 <= k < raw.len() implies #[trigger] raw[k] != '\n' by {
                assert(raw[k] == b[i + k]);
            }
        }
        assert(free_of(line, '\n')) by {
            assert forall|k: int| 0 <= k < line.len() implies #[trigger] line[k] != '\n' by {
                assert(line[k] == raw[k]);
            }
        }
        let head: Seq<Seq<char>> = if tok.len() == 0 {
            Seq::empty()
        } else {
            match ref_filename(tok) {
                Some(n) => seq![n],
                None => Seq::empty(),
            }
        };
        let rest: Seq<Seq<char>> = if e < b.len() {
            filenames_from(b, e + 1)
        } else {
            Seq::empty()
        };
        assert(filenames_from(b, i) == head + rest);
        if e < b.len() {
            lemma_block_names_plain(b, e + 1);
        }
        if head.len() > 0 {
            let n = head[0];
            let t = trim(tok);
            assert(ref_filename(tok) == Some(n));
            assert(t.len() >= 2 && t[0] == '@' && t.last() == '@');
            let inner = t.subrange(1, t.len() - 1);
            lemma_trim_free_of(line, '\n');
            lemma_strip_trailing_free_of(trim(line), ',', '\n');
            lemma_trim_free_of(strip_trailing(trim(line), ','), '\n');
            lemma_trim_free_of(tok, '\n');
            assert(free_of(inner, '\n')) by {
                assert forall|k: int| 0 <= k < inner.len() implies #[trigger] inner[k] != '\n' by {
                    assert(inner[k] == t[k + 1]);
                }
            }
            lemma_file_name_upto_plain(inner, inner.len() as int, '\n');
            if e < b.len() {
                assert(free_of(line, ']')) by {
                    assert forall|k: int| 0 <= k < line.len() implies #[trigger] line[k] != ']' by {
                        assert(line[k] == raw[k]);
                        assert(raw[k] == b[i + k]);
                    }
                }
                lemma_trim_free_of(line, ']');
                lemma_strip_trailing_free_of(trim(line), ',', ']');
                lemma_trim_free_of(strip_trailing(trim(line), ','), ']');
                lemma_trim_free_of(tok, ']');
                assert(free_of(inner, ']')) by {
                    assert forall|k: int| 0 <= k < inner.len() implies #[trigger] inner[k] != ']'
                        by {
                        assert(inner[k] == t[k + 1]);
                    }
                }
                lemma_file_name_upto_plain(inner, inner.len() as int, ']');
            } else {
                // The last line ends with the block's `]`, so it names nothing.
                assert(line == raw);
                assert(raw.len() > 0 && raw.last() == ']');
                lemma_trim_keeps_last(line);
                assert(strip_trailing(trim(line), ',') == trim(line));
                lemma_trim_keeps_last(trim(line));
                lemma_trim_keeps_last(tok);
                assert(false);
            }
            assert(plain_layer_name(n));
        }
        assert forall|m: int|
            0 <= m < filenames_from(b, i).len() implies plain_layer_name(
                #[trigger] filenames_from(b, i)[m],
            ) by {
            if m < head.len() {
                assert(filenames_from(b, i)[m] == head[m]);
            } else {
                assert(filenames_from(b, i)[m] == rest[m - head.len()]);
            }
        }
    }
}

/// Every name read from a root layer is plain.
pub proof fn lemma_parsed_names_plain(text: Seq<char>)
    ensures
        forall|m: int|
            0 <= m < spec_parse_sublayers(text).len() ==> plain_layer_name(
                #[trigger] spec_parse_sublayers(text)[m],
            ),
{
    match sublayers_block(text) {
        None => {},
        Some((a, b)) => {
            let s0 = find(text, kw_sublayers())->0;
            lemma_find_from_props(text, kw_sublayers(), 0);
            lemma_find_from_props(text, seq!['['], s0);
            lemma_find_from_props(text, seq![']'], a);
            let blk = text.subrange(a, b);
            assert(occurs_at(text, seq![']'], b - 1));
            assert(blk.last() == text[b - 1]);
            assert(text.subrange(b - 1, b)[0] == text[b - 1]);
            assert forall|k: int| 0 <= k < blk.len() - 1 implies #[trigger] blk[k] != ']' by {
                assert(blk[k] == text[a + k]);
                assert(!occurs_at(text, seq![']'], a + k));
                if text[a + k] == ']' {
                    assert(text.subrange(a + k, a + k + 1) =~= seq![']']);
                }
            }
            lemma_block_names_plain(blk, 0);
        },
    }
}


pub open spec fn all_plain(names: Seq<Seq<char>>) -> bool {
    forall|k: int| 0 <= k < names.len() ==> plain_layer_name(#[trigger] names[k])
}

proof fn lemma_all_plain_moved(paths: Seq<Seq<char>>, from: int, to: int)
    requires
        all_plain(paths),
        0 <= from < paths.len(),
        0 <= to < paths.len(),
    ensures
        all_plain(paths.remove(from).insert(to, paths[from])),
{
    let r = paths.remove(from);
    paths.remove_ensures(from);
    assert(all_plain(r)) by {
        assert forall|k: int| 0 <= k < r.len() implies plain_layer_name(#[trigger] r[k]) by {
            if k < from {
                assert(r[k] == paths[k]);
            } else {
                assert(r[k] == paths[k + 1]);
            }
        }
    }
    lemma_all_plain_insert(r, to, paths[from]);
}

proof fn lemma_all_plain_insert(names: Seq<Seq<char>>, at: int, n: Seq<char>)
    requires
        all_plain(names),
        plain_layer_name(n),
        0 <= at <= names.len(),
    ensures
        all_plain(names.insert(at, n)),
{
    let r = names.insert(at, n);
    names.insert_ensures(at, n);
    assert forall|k: int| 0 <= k < r.len() implies plain_layer_name(#[trigger] r[k]) by {
        if k < at {
            assert(r[k] == names[k]);
        } else if k > at {
            assert(r[k] == names[k - 1]);
        }
    }
}

/// A non-empty list read from a root layer means the layer has a block.
proof fn lemma_nonempty_parse_has_block(text: Seq<char>)
    requires
        spec_parse_sublayers(text).len() > 0,
    ensures
        sublayers_block(text) is Some,
{
}

/// Moving a layer in the stack and reading it back gives the moved order.
pub proof fn lemma_reorder_reads_back(text: Seq<char>, from: int, to: int)
    requires
        0 <= from,
        0 <= to,
    ensures
        spec_reorder_sublayer(text, from, to) matches Ok(t2) ==> {
            let paths = spec_parse_sublayers(text);
            spec_parse_sublayers(t2) == paths.remove(from).insert(to, paths[from])
        },
{
    let paths = spec_parse_sublayers(text);
    if from < paths.len() && to < paths.len() {
        lemma_nonempty_parse_has_block(text);
        lemma_parsed_names_plain(text);
        lemma_all_plain_moved(paths, from, to);
        lemma_rewrite_reads_back(text, paths.remove(from).insert(to, paths[from]));
    }
}

/// Removing a layer and reading the stack back gives the stack without it.
pub proof fn lemma_remove_reads_back(text: Seq<char>, filename: Seq<char>)
    ensures
        spec_remove_sublayer(text, filename) matches Ok(t2) ==> spec_parse_sublayers(t2)
            == without_name(spec_parse_sublayers(text), spec_normalize_layer_filename(filename)),
{
    let paths = spec_parse_sublayers(text);
    let f = spec_normalize_layer_filename(filename);
    let kept = without_name(paths, f);
    if kept.len() != paths.len() {
        assert(paths.len() > 0) by {
            if paths.len() == 0 {
                reveal(Seq::filter);
                assert(kept =~= paths);
            }
        }
        lemma_nonempty_parse_has_block(text);
        lemma_parsed_names_plain(text);
        assert(all_plain(kept)) by {
            assert forall|k: int| 0 <= k < kept.len() implies plain_layer_name(#[trigger] kept[k])
                by {
                assert(kept.contains(kept[k]));
                paths.lemma_filter_contains_rev(differs_from(f), kept[k]);
                let j = choose|j: int| 0 <= j < paths.len() && paths[j] == kept[k];
                assert(plain_layer_name(paths[j]));
            }
        }
        lemma_rewrite_reads_back(text, kept);
    }
}

/// Inserting a plain layer name and reading the stack back gives the stack
/// with the name at the clamped index, for a root layer that has a complete
/// sublayer block or no `subLayers` keyword at all.
pub proof fn lemma_insert_reads_back(text: Seq<char>, index: int, filename: Seq<char>)
    requires
        0 <= index,
        plain_layer_name(spec_normalize_layer_filename(filename)),
        sublayers_block(text) is Some || find(text, kw_sublayers()) is None,
    ensures
        spec_insert_sublayer(text, index, filename) matches Some(t2) ==> {
            let ordered = spec_parse_sublayers(text);
            let at = if index < ordered.len() {
                index
            } else {
                ordered.len() as int
            };
            spec_parse_sublayers(t2) == ordered.insert(at, spec_normalize_layer_filename(filename))
        },
{
    let ordered = spec_parse_sublayers(text);
    let f = spec_normalize_layer_filename(filename);
    let at = if index < ordered.len() {
        index
    } else {
        ordered.len() as int
    };
    lemma_parsed_names_plain(text);
    lemma_all_plain_insert(ordered, at, f);
    lemma_rewrite_reads_back(text, ordered.insert(at, f));
}

/// Appending a plain layer name and reading the stack back gives the stack
/// with the name last, under the same condition as inserting.
pub proof fn lemma_append_reads_back(text: Seq<char>, filename: Seq<char>)
    requires
        plain_layer_name(spec_normalize_layer_filename(filename)),
        sublayers_block(text) is Some || find(text, kw_sublayers()) is None,
    ensures
        spec_append_sublayer(text, filename) matches Some(t2) ==> spec_parse_sublayers(t2)
            == spec_parse_sublayers(text).push(spec_normalize_layer_filename(filename)),
{
    let ordered = spec_parse_sublayers(text);
    let f = spec_normalize_layer_filename(filename);
    lemma_parsed_names_plain(text);
    lemma_all_plain_insert(ordered, ordered.len() as int, f);
    assert(ordered.insert(ordered.len() as int, f) =~= ordered.push(f));
    lemma_rewrite_reads_back(text, ordered.push(f));
}


// ---------------------------------------------------------------------------
// Layer files beside the root layer
// ---------------------------------------------------------------------------

pub open spec fn no_parent_msg() -> Seq<char> {
    "Root layer has no parent directory."@
}

/// Where a sublayer file named `filename` (normalized) lives: in the root
/// layer's directory.
pub fn layer_path_for_root(root_layer_path: &str, filename: &str) -> (r: Result<String, String>)
    ensures
        match path_parent(root_layer_path@) {
            None => r matches Err(m) && m@ == no_parent_msg(),
            Some(p) => r matches Ok(q) && q@ == path_join(p, spec_normalize_layer_filename(filename@)),
        },
{
    match parent_text(root_layer_path) {
        None => Err("Root layer has no parent directory.".to_owned()),
        Some(parent) => {
            let f = normalize_layer_filename(filename);
            Ok(join_text(parent.as_str(), f.as_str()))
        },
    }
}

} // verus!
