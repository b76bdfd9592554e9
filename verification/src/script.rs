//! OTL script source scanning: comment stripping, entry-point discovery and the
//! reduction of a shader / `fn main` wrapper to one compilable expression.
//!
//! Each step is specified by a spec function over `Seq<char>`; the public
//! functions at the bottom work on `&str` and return `String`.

use crate::text::{
    append_chars, ascii_lower, seq_eq, skip_ws, back_ws_from, chars_of, contains, contains_chars, ends_with,
    ends_with_chars, find, find_at_or_after, find_ch, find_first, find_from, is_ident_ch,
    is_ident_char, is_ws, is_ws_char, lemma_back_ws_bounds, lemma_find_from_props,
    lemma_skip_ws_bounds, lower, lower_of, occurs_at, skip_ws_from, slice_of, starts_with,
    starts_with_chars, string_of, strip_trailing, strip_trailing_of, trim, trim_end, trim_end_of,
    trim_of, trim_start, trim_start_of,
};
use vstd::prelude::*;
use vstd::utf8::encode_utf8;

verus! {

pub open spec fn views(v: Seq<Vec<char>>) -> Seq<Seq<char>> {
    Seq::new(v.len(), |i: int| v[i]@)
}

pub open spec fn opt_view(r: Option<Vec<char>>) -> Option<Seq<char>> {
    match r {
        Some(v) => Some(v@),
        None => None,
    }
}

// ---------------------------------------------------------------------------
// Keywords
// ---------------------------------------------------------------------------

pub open spec fn kw_comment() -> Seq<char> {
    seq!['/', '/']
}

pub open spec fn kw_main() -> Seq<char> {
    seq!['m', 'a', 'i', 'n']
}

pub open spec fn kw_fn() -> Seq<char> {
    seq!['f', 'n']
}

pub open spec fn kw_fn_main() -> Seq<char> {
    seq!['f', 'n', ' ', 'm', 'a', 'i', 'n']
}

pub open spec fn kw_void() -> Seq<char> {
    seq!['v', 'o', 'i', 'd', ' ']
}

pub open spec fn kw_return() -> Seq<char> {
    seq!['r', 'e', 't', 'u', 'r', 'n']
}

pub open spec fn kw_output() -> Seq<char> {
    seq!['o', 'u', 't', 'p', 'u', 't']
}

pub open spec fn kw_float() -> Seq<char> {
    seq!['f', 'l', 'o', 'a', 't']
}

pub open spec fn kw_int() -> Seq<char> {
    seq!['i', 'n', 't']
}

pub open spec fn kw_string() -> Seq<char> {
    seq!['s', 't', 'r', 'i', 'n', 'g']
}

pub open spec fn kw_signal() -> Seq<char> {
    seq!['s', 'i', 'g', 'n', 'a', 'l']
}

fn v_comment() -> (v: Vec<char>)
    ensures
        v@ == kw_comment(),
{
    let v = vec!['/', '/'];
    assert(v@ =~= kw_comment());
    v
}

pub fn v_main() -> (v: Vec<char>)
    ensures
        v@ == kw_main(),
{
    let v = vec!['m', 'a', 'i', 'n'];
    assert(v@ =~= kw_main());
    v
}

fn v_fn() -> (v: Vec<char>)
    ensures
        v@ == kw_fn(),
{
    let v = vec!['f', 'n'];
    assert(v@ =~= kw_fn());
    v
}

pub fn v_fn_main() -> (v: Vec<char>)
    ensures
        v@ == kw_fn_main(),
{
    let v = vec!['f', 'n', ' ', 'm', 'a', 'i', 'n'];
    assert(v@ =~= kw_fn_main());
    v
}

pub fn v_void() -> (v: Vec<char>)
    ensures
        v@ == kw_void(),
{
    let v = vec!['v', 'o', 'i', 'd', ' '];
    assert(v@ =~= kw_void());
    v
}

fn v_return() -> (v: Vec<char>)
    ensures
        v@ == kw_return(),
{
    let v = vec!['r', 'e', 't', 'u', 'r', 'n'];
    assert(v@ =~= kw_return());
    v
}

pub fn v_output() -> (v: Vec<char>)
    ensures
        v@ == kw_output(),
{
    let v = vec!['o', 'u', 't', 'p', 'u', 't'];
    assert(v@ =~= kw_output());
    v
}

fn v_float() -> (v: Vec<char>)
    ensures
        v@ == kw_float(),
{
    let v = vec!['f', 'l', 'o', 'a', 't'];
    assert(v@ =~= kw_float());
    v
}

fn v_int() -> (v: Vec<char>)
    ensures
        v@ == kw_int(),
{
    let v = vec!['i', 'n', 't'];
    assert(v@ =~= kw_int());
    v
}

fn v_string() -> (v: Vec<char>)
    ensures
        v@ == kw_string(),
{
    let v = vec!['s', 't', 'r', 'i', 'n', 'g'];
    assert(v@ =~= kw_string());
    v
}

fn v_signal() -> (v: Vec<char>)
    ensures
        v@ == kw_signal(),
{
    let v = vec!['s', 'i', 'g', 'n', 'a', 'l'];
    assert(v@ =~= kw_signal());
    v
}

// ---------------------------------------------------------------------------
// Lines and `//` comments
// ---------------------------------------------------------------------------

/// Index of the first `'\n'` at or after `i`, or the length.
pub open spec fn next_nl(s: Seq<char>, i: int) -> int
    decreases s.len() - i,
{
    if i < 0 || i >= s.len() {
        s.len() as int
    } else if s[i] == '\n' {
        i
    } else {
        next_nl(s, i + 1)
    }
}

pub proof fn lemma_next_nl(s: Seq<char>, i: int)
    requires
        0 <= i <= s.len(),
    ensures
        i <= next_nl(s, i) <= s.len(),
        next_nl(s, i) < s.len() ==> s[next_nl(s, i)] == '\n',
    decreases s.len() - i,
{
    if i < s.len() && s[i] != '\n' {
        lemma_next_nl(s, i + 1);
    }
}

/// The line starting at `i` as `str::lines` yields it (`"\r\n"` endings removed).
pub open spec fn line_at(s: Seq<char>, i: int) -> Seq<char> {
    let e = next_nl(s, i);
    let l = s.subrange(i, e);
    if e < s.len() && l.len() > 0 && l.last() == '\r' {
        l.drop_last()
    } else {
        l
    }
}

/// One line with its `//` comment (and the blanks before it) removed.
pub open spec fn strip_comment_line(l: Seq<char>) -> Seq<char> {
    match find(l, kw_comment()) {
        Some(k) => trim_end(l.subrange(0, k)),
        None => l,
    }
}

/// Lines from `i` on, comment-stripped and joined by `'\n'`; `first` says no
/// separator precedes the first of them.
pub open spec fn strip_comments_from(s: Seq<char>, i: int, first: bool) -> Seq<char>
    decreases s.len() - i,
{
    if i < 0 || i >= s.len() {
        Seq::empty()
    } else {
        proof {
            lemma_next_nl(s, i);
        }
        let e = next_nl(s, i);
        let sep: Seq<char> = if first {
            Seq::empty()
        } else {
            seq!['\n']
        };
        let rest = if e < s.len() {
            strip_comments_from(s, e + 1, false)
        } else {
            Seq::empty()
        };
        sep + strip_comment_line(line_at(s, i)) + rest
    }
}

/// `source.lines().map(strip //-comment).join("\n")`.
pub open spec fn strip_line_comments(s: Seq<char>) -> Seq<char> {
    strip_comments_from(s, 0, true)
}

pub fn next_newline(s: &[char], i: usize) -> (e: usize)
    requires
        i <= s@.len(),
    ensures
        e == next_nl(s@, i as int),
        i <= e <= s@.len(),
{
    proof {
        lemma_next_nl(s@, i as int);
    }
    let mut j = i;
    while j < s.len() && s[j] != '\n'
        invariant
            i <= j <= s@.len(),
            next_nl(s@, i as int) == next_nl(s@, j as int),
        decreases s.len() - j,
    {
        j = j + 1;
    }
    j
}

fn strip_comment_line_of(l: &[char]) -> (out: Vec<char>)
    ensures
        out@ == strip_comment_line(l@),
{
    let c = v_comment();
    match find_first(l, &c) {
        Some(k) => {
            proof {
                lemma_find_from_props(l@, kw_comment(), 0);
            }
            let head = slice_of(l, 0, k);
            trim_end_of(&head)
        },
        None => slice_of(l, 0, l.len()),
    }
}

pub fn strip_line_comments_of(s: &[char]) -> (out: Vec<char>)
    ensures
        out@ == strip_line_comments(s@),
{
    let mut out: Vec<char> = Vec::new();
    let mut i: usize = 0;
    let mut first = true;
    while i < s.len()
        invariant
            i <= s@.len(),
            first ==> i == 0,
            strip_line_comments(s@) == out@ + strip_comments_from(s@, i as int, first),
        decreases s@.len() - i,
    {
        let e = next_newline(s, i);
        let ghost old_out = out@;
        let ghost old_i = i;
        let ghost old_first = first;
        let mut l = slice_of(s, i, e);
        if e < s.len() && l.len() > 0 && l[l.len() - 1] == '\r' {
            let ghost before = l@;
            l.pop();
            assert(l@ =~= before.drop_last());
        }
        assert(l@ == line_at(s@, i as int));
        if !first {
            out.push('\n');
        }
        let stripped = strip_comment_line_of(&l);
        append_chars(&mut out, &stripped);
        first = false;
        let ghost next_i = e + 1;
        if e < s.len() {
            i = e + 1;
        } else {
            i = s.len();
        }
        proof {
            assert(strip_comments_from(s@, i as int, false) == strip_comments_from(s@, next_i as int, false));
            let sep: Seq<char> = if old_first {
                Seq::empty()
            } else {
                seq!['\n']
            };
            assert(strip_comments_from(s@, old_i as int, old_first) == sep + strip_comment_line(
                line_at(s@, old_i as int),
            ) + strip_comments_from(s@, next_i as int, false));
            assert(out@ =~= old_out + sep + stripped@);
            assert(old_out + (sep + strip_comment_line(line_at(s@, old_i as int))
                + strip_comments_from(s@, i as int, false)) =~= out@ + strip_comments_from(
                s@,
                i as int,
                first,
            ));
        }
    }
    proof {
        assert(strip_comments_from(s@, i as int, first) =~= Seq::<char>::empty());
    }
    out
}

// ---------------------------------------------------------------------------
// Balanced delimiters
// ---------------------------------------------------------------------------

/// Scan from `i` with nesting `depth`; the index where depth returns to zero.
pub open spec fn bal_scan(s: Seq<char>, open: char, close: char, i: int, depth: int) -> Option<int>
    decreases s.len() - i,
{
    if i < 0 || i >= s.len() {
        None
    } else if s[i] == open {
        bal_scan(s, open, close, i + 1, depth + 1)
    } else if s[i] == close {
        if depth == 1 {
            Some(i)
        } else {
            bal_scan(s, open, close, i + 1, depth - 1)
        }
    } else {
        bal_scan(s, open, close, i + 1, depth)
    }
}

/// Offset of the delimiter closing the `open` that `s` starts with.
pub open spec fn balanced_delimiter_offset(s: Seq<char>, open: char, close: char) -> Option<int> {
    if s.len() == 0 || s[0] != open {
        None
    } else {
        bal_scan(s, open, close, 0, 0)
    }
}

/// Offset of the `}` that closes an already-open `{` (depth starts at one).
pub open spec fn brace_scan(s: Seq<char>, i: int, depth: int) -> Option<int>
    decreases s.len() - i,
{
    if i < 0 || i >= s.len() {
        None
    } else if s[i] == '{' {
        brace_scan(s, i + 1, depth + 1)
    } else if s[i] == '}' {
        if depth == 1 {
            Some(i)
        } else {
            brace_scan(s, i + 1, depth - 1)
        }
    } else {
        brace_scan(s, i + 1, depth)
    }
}

pub open spec fn balanced_closing_brace_offset(s: Seq<char>) -> Option<int> {
    brace_scan(s, 0, 1)
}

pub proof fn lemma_bal_scan_bounds(s: Seq<char>, open: char, close: char, i: int, depth: int)
    requires
        0 <= i,
    ensures
        bal_scan(s, open, close, i, depth) matches Some(k) ==> i <= k < s.len(),
    decreases s.len() - i,
{
    if i < s.len() {
        if s[i] == open {
            lemma_bal_scan_bounds(s, open, close, i + 1, depth + 1);
        } else if s[i] == close {
            lemma_bal_scan_bounds(s, open, close, i + 1, depth - 1);
        } else {
            lemma_bal_scan_bounds(s, open, close, i + 1, depth);
        }
    }
}

pub proof fn lemma_brace_scan_bounds(s: Seq<char>, i: int, depth: int)
    requires
        0 <= i,
    ensures
        brace_scan(s, i, depth) matches Some(k) ==> i <= k < s.len(),
    decreases s.len() - i,
{
    if i < s.len() {
        if s[i] == '{' {
            lemma_brace_scan_bounds(s, i + 1, depth + 1);
        } else if s[i] == '}' {
            lemma_brace_scan_bounds(s, i + 1, depth - 1);
        } else {
            lemma_brace_scan_bounds(s, i + 1, depth);
        }
    }
}

pub fn balanced_offset(s: &[char], open: char, close: char) -> (r: Option<usize>)
    requires
        open != close,
    ensures
        r matches Some(k) ==> balanced_delimiter_offset(s@, open, close) == Some(k as int) && 0 < k < s@.len(),
        r is None ==> balanced_delimiter_offset(s@, open, close) is None,
{
    if s.len() == 0 || s[0] != open {
        return None;
    }
    proof {
        lemma_bal_scan_bounds(s@, open, close, 0, 0);
    }
    let mut depth: usize = 0;
    let mut i: usize = 0;
    while i < s.len()
        invariant
            i <= s@.len(),
            s@.len() > 0 && s@[0] == open,
            i > 0 ==> depth >= 1,
            depth <= i,
            bal_scan(s@, open, close, 0, 0) == bal_scan(s@, open, close, i as int, depth as int),
        decreases s.len() - i,
    {
        let c = s[i];
        if c == open {
            depth = depth + 1;
        } else if c == close {
            if depth == 1 {
                assert(i > 0);
                return Some(i);
            }
            depth = depth - 1;
        }
        i = i + 1;
    }
    None
}

fn closing_brace_offset(s: &[char]) -> (r: Option<usize>)
    ensures
        r matches Some(k) ==> balanced_closing_brace_offset(s@) == Some(k as int) && k < s@.len(),
        r is None ==> balanced_closing_brace_offset(s@) is None,
{
    proof {
        lemma_brace_scan_bounds(s@, 0, 1);
    }
    let mut extra: usize = 0;
    let mut i: usize = 0;
    while i < s.len()
        invariant
            i <= s@.len(),
            extra <= i,
            brace_scan(s@, 0, 1) == brace_scan(s@, i as int, extra + 1),
        decreases s.len() - i,
    {
        let c = s[i];
        if c == '{' {
            extra = extra + 1;
        } else if c == '}' {
            if extra == 0 {
                return Some(i);
            }
            extra = extra - 1;
        }
        i = i + 1;
    }
    None
}

// ---------------------------------------------------------------------------
// Function headers: `fn main(...)` and `void name(...)`
// ---------------------------------------------------------------------------

pub open spec fn all_ident(s: Seq<char>) -> bool {
    forall|i: int| 0 <= i < s.len() ==> is_ident_char(#[trigger] s[i])
}

/// The parameter text inside `(...)` after `offset`-th character of `s`
/// (`s[at..]` must start the search for `(`).
pub open spec fn paren_list_after(s: Seq<char>) -> Option<Seq<char>> {
    match find(s, seq!['(']) {
        None => None,
        Some(op) => match balanced_delimiter_offset(s.subrange(op, s.len() as int), '(', ')') {
            None => None,
            Some(cp) => Some(trim(s.subrange(op + 1, op + cp))),
        },
    }
}

/// Parameters of a legacy `fn main(...)` header.
pub open spec fn fn_main_params(s: Seq<char>) -> Option<Seq<char>> {
    let lo = lower(s);
    match find(lo, kw_main()) {
        None => None,
        Some(mi) => if !ends_with(trim(lo.subrange(0, mi)), kw_fn()) {
            None
        } else {
            paren_list_after(s.subrange(mi + 4, s.len() as int))
        },
    }
}

/// Text after the first `void ` (case-insensitive), leading blanks removed.
pub open spec fn after_void(s: Seq<char>) -> Option<Seq<char>> {
    match find(lower(s), kw_void()) {
        None => None,
        Some(vi) => Some(trim_start(s.subrange(vi + 5, s.len() as int))),
    }
}

/// Name of a `void name(` shader header when it is a plain identifier.
pub open spec fn void_function_name(s: Seq<char>) -> Option<Seq<char>> {
    match after_void(s) {
        None => None,
        Some(av) => match find(av, seq!['(']) {
            None => None,
            Some(op) => {
                let name = trim(av.subrange(0, op));
                if name.len() == 0 || !all_ident(name) {
                    None
                } else {
                    Some(name)
                }
            },
        },
    }
}

/// Parameters of an OSL `void name(...)` header.
pub open spec fn void_params(s: Seq<char>) -> Option<Seq<char>> {
    match void_function_name(s) {
        None => None,
        Some(_) => paren_list_after(after_void(s)->0),
    }
}

/// Parameters of `fn main(...)`, else of `void name(...)`.
pub open spec fn function_params(s: Seq<char>) -> Option<Seq<char>> {
    match fn_main_params(s) {
        Some(p) => Some(p),
        None => void_params(s),
    }
}

/// The entry point name: a `void` shader name, else `main` for `fn main`.
pub open spec fn entry_point_name(s: Seq<char>) -> Option<Seq<char>> {
    match void_function_name(s) {
        Some(n) => Some(n),
        None => if contains(lower(strip_line_comments(s)), kw_fn_main()) {
            Some(kw_main())
        } else {
            None
        },
    }
}

pub fn all_ident_of(s: &[char]) -> (r: bool)
    ensures
        r == all_ident(s@),
{
    let mut i: usize = 0;
    while i < s.len()
        invariant
            i <= s@.len(),
            forall|j: int| 0 <= j < i ==> is_ident_char(#[trigger] s@[j]),
        decreases s.len() - i,
    {
        if !is_ident_ch(s[i]) {
            return false;
        }
        i = i + 1;
    }
    true
}

fn paren_list_after_of(s: &[char]) -> (r: Option<Vec<char>>)
    ensures
        opt_view(r) == paren_list_after(s@),
{
    match find_ch(s, '(') {
        None => None,
        Some(op) => {
            proof {
                lemma_find_from_props(s@, seq!['('], 0);
            }
            let tail = slice_of(s, op, s.len());
            match balanced_offset(&tail, '(', ')') {
                None => None,
                Some(cp) => {
                    let inner = slice_of(s, op + 1, op + cp);
                    assert(tail@.subrange(0, 0) =~= Seq::<char>::empty());
                    Some(trim_of(&inner))
                },
            }
        },
    }
}

pub fn fn_main_params_of(s: &[char]) -> (r: Option<Vec<char>>)
    ensures
        opt_view(r) == fn_main_params(s@),
{
    let lo = lower_of(s);
    let m = v_main();
    match find_first(&lo, &m) {
        None => None,
        Some(mi) => {
            proof {
                lemma_find_from_props(lo@, kw_main(), 0);
                assert(kw_main().len() == 4);
                assert(find(lo@, kw_main()) == Some(mi as int));
                assert(mi + 4 <= lo@.len());
                assert(lo@.len() == s@.len());
                assert(mi + 4 <= s.len());
            }
            let before = slice_of(&lo, 0, mi);
            let before = trim_of(&before);
            let f = v_fn();
            if !ends_with_chars(&before, &f) {
                return None;
            }
            let after = slice_of(s, mi + 4, s.len());
            paren_list_after_of(&after)
        },
    }
}

fn after_void_of(s: &[char]) -> (r: Option<Vec<char>>)
    ensures
        opt_view(r) == after_void(s@),
{
    let lo = lower_of(s);
    let v = v_void();
    match find_first(&lo, &v) {
        None => None,
        Some(vi) => {
            proof {
                lemma_find_from_props(lo@, kw_void(), 0);
                assert(kw_void().len() == 5);
                assert(find(lo@, kw_void()) == Some(vi as int));
                assert(vi + 5 <= lo@.len());
                assert(lo@.len() == s@.len());
                assert(vi + 5 <= s.len());
            }
            let rest = slice_of(s, vi + 5, s.len());
            Some(trim_start_of(&rest))
        },
    }
}

fn void_function_name_of(s: &[char]) -> (r: Option<Vec<char>>)
    ensures
        opt_view(r) == void_function_name(s@),
{
    match after_void_of(s) {
        None => None,
        Some(av) => match find_ch(&av, '(') {
            None => None,
            Some(op) => {
                proof {
                    lemma_find_from_props(av@, seq!['('], 0);
                }
                let name = slice_of(&av, 0, op);
                let name = trim_of(&name);
                if name.len() == 0 || !all_ident_of(&name) {
                    None
                } else {
                    Some(name)
                }
            },
        },
    }
}

fn void_params_of(s: &[char]) -> (r: Option<Vec<char>>)
    ensures
        opt_view(r) == void_params(s@),
{
    match void_function_name_of(s) {
        None => None,
        Some(_) => {
            let av = after_void_of(s);
            match av {
                Some(av) => paren_list_after_of(&av),
                None => None,
            }
        },
    }
}

fn function_params_of(s: &[char]) -> (r: Option<Vec<char>>)
    ensures
        opt_view(r) == function_params(s@),
{
    match fn_main_params_of(s) {
        Some(p) => Some(p),
        None => void_params_of(s),
    }
}

fn entry_point_name_of(s: &[char]) -> (r: Option<Vec<char>>)
    ensures
        opt_view(r) == entry_point_name(s@),
{
    match void_function_name_of(s) {
        Some(n) => Some(n),
        None => {
            let stripped = strip_line_comments_of(s);
            let lo = lower_of(&stripped);
            let fm = v_fn_main();
            if contains_chars(&lo, &fm) {
                Some(v_main())
            } else {
                None
            }
        },
    }
}

/// OSL / legacy entry point identifier (`adaptive_trigger`, `main`, ...).
pub fn parse_script_entry_point_name(source: &str) -> (r: Option<String>)
    ensures
        r matches Some(n) ==> entry_point_name(source@) == Some(n@),
        r is None ==> entry_point_name(source@) is None,
{
    let s = chars_of(source);
    match entry_point_name_of(&s) {
        Some(n) => Some(string_of(&n)),
        None => None,
    }
}

/// Canvas / node title: the script entry point when present, else `fallback`.
pub fn display_name_for_script(source: &str, fallback: &str) -> (r: String)
    ensures
        r@ == match entry_point_name(source@) {
            Some(n) => n,
            None => fallback@,
        },
{
    match parse_script_entry_point_name(source) {
        Some(n) => n,
        None => fallback.to_owned(),
    }
}

// ---------------------------------------------------------------------------
// OSL parameter lists
// ---------------------------------------------------------------------------

/// A header mentions one of the OSL scalar types.
pub open spec fn looks_like_osl_header(h: Seq<char>) -> bool {
    let lo = lower(h);
    contains(lo, kw_float()) || contains(lo, kw_int()) || contains(lo, kw_string())
}

/// `fn main(...)` / `void name(...)` header, or a bare typed header before `{`.
pub open spec fn is_osl_shader_source(s: Seq<char>) -> bool {
    function_params(s) is Some || match find(s, seq!['{']) {
        Some(o) => looks_like_osl_header(trim(s.subrange(0, o))),
        None => false,
    }
}

/// Parameter text of an OSL shader header.
pub open spec fn osl_parameter_list(s: Seq<char>) -> Option<Seq<char>> {
    match function_params(s) {
        Some(p) => Some(p),
        None => match find(s, seq!['{']) {
            Some(o) => if looks_like_osl_header(trim(s.subrange(0, o))) {
                Some(trim(s.subrange(0, o)))
            } else {
                None
            },
            None => None,
        },
    }
}

/// Split at commas outside `()`, `[]` and `{}`; each piece trimmed.
pub open spec fn split_scan(s: Seq<char>, i: int, start: int, depth: int) -> Seq<Seq<char>>
    decreases s.len() - i,
{
    if i < 0 || i >= s.len() {
        seq![trim(s.subrange(start, s.len() as int))]
    } else {
        let c = s[i];
        if c == '(' || c == '[' || c == '{' {
            split_scan(s, i + 1, start, depth + 1)
        } else if (c == ')' || c == ']' || c == '}') && depth > 0 {
            split_scan(s, i + 1, start, depth - 1)
        } else if c == ',' && depth == 0 {
            seq![trim(s.subrange(start, i))] + split_scan(s, i + 1, i + 1, 0)
        } else {
            split_scan(s, i + 1, start, depth)
        }
    }
}

pub open spec fn split_top_level_commas(s: Seq<char>) -> Seq<Seq<char>> {
    split_scan(s, 0, 0, 0)
}

/// End of the whitespace-free run starting at `k`.
pub open spec fn word_end(s: Seq<char>, k: int) -> int
    decreases s.len() - k,
{
    if 0 <= k < s.len() && !is_ws(s[k]) {
        word_end(s, k + 1)
    } else {
        k
    }
}

pub proof fn lemma_word_end(s: Seq<char>, k: int)
    requires
        0 <= k <= s.len(),
    ensures
        k <= word_end(s, k) <= s.len(),
        k < s.len() && !is_ws(s[k]) ==> k < word_end(s, k),
    decreases s.len() - k,
{
    if k < s.len() && !is_ws(s[k]) {
        lemma_word_end(s, k + 1);
    }
}

/// `split_whitespace` from index `i`.
pub open spec fn tokens_from(s: Seq<char>, i: int) -> Seq<Seq<char>>
    decreases s.len() - i,
{
    if i < 0 || i > s.len() {
        Seq::empty()
    } else {
        proof {
            lemma_skip_ws_bounds(s, i);
        }
        let k = skip_ws_from(s, i);
        if k >= s.len() {
            Seq::empty()
        } else {
            proof {
                lemma_word_end(s, k);
            }
            let e = word_end(s, k);
            seq![s.subrange(k, e)] + tokens_from(s, e)
        }
    }
}

pub open spec fn tokens(s: Seq<char>) -> Seq<Seq<char>> {
    tokens_from(s, 0)
}

/// Tokens joined by single spaces.
pub open spec fn join_space(ts: Seq<Seq<char>>) -> Seq<char>
    decreases ts.len(),
{
    if ts.len() == 0 {
        Seq::empty()
    } else if ts.len() == 1 {
        ts[0]
    } else {
        ts[0] + seq![' '] + join_space(ts.subrange(1, ts.len() as int))
    }
}

/// Text before the first `=` (all of it when there is none).
pub open spec fn before_eq(s: Seq<char>) -> Seq<char> {
    match find(s, seq!['=']) {
        Some(k) => s.subrange(0, k),
        None => s,
    }
}

pub open spec fn is_osl_type(t: Seq<char>) -> bool {
    let lo = lower(t);
    lo == kw_float() || lo == kw_int() || lo == kw_string()
}

/// `(is_output, name)` of one OSL parameter such as `output float band`.
pub open spec fn osl_param_head(param: Seq<char>) -> Option<(bool, Seq<char>)> {
    let seg0 = strip_trailing(trim(param), ';');
    if seg0.len() == 0 {
        None
    } else {
        let is_out = starts_with(lower(seg0), kw_output());
        let seg = if is_out {
            trim(seg0.subrange(6, seg0.len() as int))
        } else {
            seg0
        };
        let ts = tokens(seg);
        if ts.len() < 2 || !is_osl_type(ts[0]) {
            None
        } else {
            let name = strip_trailing(
                trim(before_eq(join_space(ts.subrange(1, ts.len() as int)))),
                ',',
            );
            if name.len() == 0 {
                None
            } else {
                Some((is_out, name))
            }
        }
    }
}

/// Names of the `output` parameters among `params[k..]`, in order.
pub open spec fn outputs_from(params: Seq<Seq<char>>, k: int) -> Seq<Seq<char>>
    decreases params.len() - k,
{
    if k < 0 || k >= params.len() {
        Seq::empty()
    } else {
        let tail = outputs_from(params, k + 1);
        match osl_param_head(params[k]) {
            Some((true, name)) => seq![name] + tail,
            _ => tail,
        }
    }
}

/// Output port names declared by a shader signature.
pub open spec fn signature_outputs(s: Seq<char>) -> Seq<Seq<char>> {
    match osl_parameter_list(s) {
        Some(pl) => outputs_from(split_top_level_commas(pl), 0),
        None => Seq::empty(),
    }
}

fn looks_like_osl_header_of(h: &[char]) -> (r: bool)
    ensures
        r == looks_like_osl_header(h@),
{
    let lo = lower_of(h);
    let f = v_float();
    let i = v_int();
    let st = v_string();
    contains_chars(&lo, &f) || contains_chars(&lo, &i) || contains_chars(&lo, &st)
}

fn brace_header_of(s: &[char]) -> (r: Option<Vec<char>>)
    ensures
        match find(s@, seq!['{']) {
            Some(o) => if looks_like_osl_header(trim(s@.subrange(0, o))) {
                opt_view(r) == Some(trim(s@.subrange(0, o)))
            } else {
                r is None
            },
            None => r is None,
        },
{
    match find_ch(s, '{') {
        Some(o) => {
            proof {
                lemma_find_from_props(s@, seq!['{'], 0);
            }
            let head = slice_of(s, 0, o);
            let head = trim_of(&head);
            if looks_like_osl_header_of(&head) {
                Some(head)
            } else {
                None
            }
        },
        None => None,
    }
}

fn is_osl_shader_source_of(s: &[char]) -> (r: bool)
    ensures
        r == is_osl_shader_source(s@),
{
    if function_params_of(s).is_some() {
        return true;
    }
    brace_header_of(s).is_some()
}

pub fn osl_parameter_list_of(s: &[char]) -> (r: Option<Vec<char>>)
    ensures
        opt_view(r) == osl_parameter_list(s@),
{
    match function_params_of(s) {
        Some(p) => Some(p),
        None => brace_header_of(s),
    }
}

pub fn split_top_level_commas_of(s: &[char]) -> (r: Vec<Vec<char>>)
    ensures
        views(r@) == split_top_level_commas(s@),
{
    let mut segs: Vec<Vec<char>> = Vec::new();
    let mut start: usize = 0;
    let mut depth: usize = 0;
    let mut i: usize = 0;
    while i < s.len()
        invariant
            start <= i <= s@.len(),
            depth <= i,
            split_top_level_commas(s@) == views(segs@) + split_scan(
                s@,
                i as int,
                start as int,
                depth as int,
            ),
        decreases s.len() - i,
    {
        let c = s[i];
        if c == '(' || c == '[' || c == '{' {
            depth = depth + 1;
        } else if (c == ')' || c == ']' || c == '}') && depth > 0 {
            depth = depth - 1;
        } else if c == ',' && depth == 0 {
            let piece = slice_of(s, start, i);
            let piece = trim_of(&piece);
            let ghost old_segs = views(segs@);
            segs.push(piece);
            proof {
                assert(views(segs@) =~= old_segs + seq![trim(s@.subrange(start as int, i as int))]);
                assert(split_scan(s@, i as int, start as int, depth as int) == seq![
                    trim(s@.subrange(start as int, i as int)),
                ] + split_scan(s@, i + 1, i + 1, 0));
                assert(old_segs + (seq![trim(s@.subrange(start as int, i as int))] + split_scan(
                    s@,
                    i + 1,
                    i + 1,
                    0,
                )) =~= views(segs@) + split_scan(s@, i + 1, i + 1, 0));
            }
            start = i + 1;
        }
        i = i + 1;
    }
    let piece = slice_of(s, start, s.len());
    let piece = trim_of(&piece);
    let ghost old_segs = views(segs@);
    segs.push(piece);
    proof {
        assert(views(segs@) =~= old_segs + split_scan(s@, i as int, start as int, depth as int));
    }
    segs
}

fn word_end_of(s: &[char], k: usize) -> (e: usize)
    requires
        k <= s@.len(),
    ensures
        e == word_end(s@, k as int),
{
    proof {
        lemma_word_end(s@, k as int);
    }
    let mut j = k;
    while j < s.len() && !is_ws_char(s[j])
        invariant
            k <= j <= s@.len(),
            word_end(s@, k as int) == word_end(s@, j as int),
        decreases s.len() - j,
    {
        j = j + 1;
    }
    j
}

pub fn tokens_of(s: &[char]) -> (r: Vec<Vec<char>>)
    ensures
        views(r@) == tokens(s@),
{
    let mut out: Vec<Vec<char>> = Vec::new();
    let mut i: usize = 0;
    while i < s.len()
        invariant
            i <= s@.len(),
            tokens(s@) == views(out@) + tokens_from(s@, i as int),
        decreases s.len() - i,
    {
        let k = skip_ws(s, i);
        if k >= s.len() {
            i = s.len();
            proof {
                assert(tokens_from(s@, s@.len() as int) =~= Seq::<Seq<char>>::empty()) by {
                    lemma_skip_ws_bounds(s@, s@.len() as int);
                }
            }
        } else {
            proof {
                lemma_word_end(s@, k as int);
                lemma_skip_ws_bounds(s@, i as int);
            }
            let e = word_end_of(s, k);
            let w = slice_of(s, k, e);
            let ghost old_out = views(out@);
            out.push(w);
            proof {
                assert(views(out@) =~= old_out + seq![s@.subrange(k as int, e as int)]);
                assert(old_out + (seq![s@.subrange(k as int, e as int)] + tokens_from(s@, e as int))
                    =~= views(out@) + tokens_from(s@, e as int));
            }
            i = e;
        }
    }
    proof {
        lemma_skip_ws_bounds(s@, i as int);
        assert(tokens_from(s@, i as int) =~= Seq::<Seq<char>>::empty());
    }
    out
}

pub fn join_space_of(ts: &Vec<Vec<char>>, from: usize) -> (r: Vec<char>)
    requires
        from <= ts.len(),
    ensures
        r@ == join_space(views(ts@).subrange(from as int, ts.len() as int)),
    decreases ts.len() - from,
{
    let ghost tv = views(ts@).subrange(from as int, ts.len() as int);
    if from == ts.len() {
        return Vec::new();
    }
    if from + 1 == ts.len() {
        return slice_of(&ts[from], 0, ts[from].len());
    }
    let mut out = slice_of(&ts[from], 0, ts[from].len());
    out.push(' ');
    let rest = join_space_of(ts, from + 1);
    append_chars(&mut out, &rest);
    proof {
        assert(tv.subrange(1, tv.len() as int) =~= views(ts@).subrange(
            from + 1,
            ts.len() as int,
        ));
        assert(tv[0] == ts[from as int]@);
    }
    out
}

pub fn before_eq_of(s: &[char]) -> (r: Vec<char>)
    ensures
        r@ == before_eq(s@),
{
    match find_ch(s, '=') {
        Some(k) => {
            proof {
                lemma_find_from_props(s@, seq!['='], 0);
            }
            slice_of(s, 0, k)
        },
        None => slice_of(s, 0, s.len()),
    }
}

fn is_osl_type_of(t: &[char]) -> (r: bool)
    ensures
        r == is_osl_type(t@),
{
    let lo = lower_of(t);
    let f = v_float();
    let i = v_int();
    let st = v_string();
    seq_eq(&lo, &f) || seq_eq(&lo, &i) || seq_eq(&lo, &st)
}

fn osl_param_head_of(param: &[char]) -> (r: Option<(bool, Vec<char>)>)
    ensures
        match r {
            Some((o, n)) => osl_param_head(param@) == Some((o, n@)),
            None => osl_param_head(param@) is None,
        },
{
    let t = trim_of(param);
    let seg0 = strip_trailing_of(&t, ';');
    if seg0.len() == 0 {
        return None;
    }
    let lo = lower_of(&seg0);
    let out_kw = v_output();
    let is_out = starts_with_chars(&lo, &out_kw);
    let seg = if is_out {
        let tail = slice_of(&seg0, 6, seg0.len());
        trim_of(&tail)
    } else {
        seg0
    };
    let ts = tokens_of(&seg);
    if ts.len() < 2 {
        return None;
    }
    if !is_osl_type_of(&ts[0]) {
        return None;
    }
    let joined = join_space_of(&ts, 1);
    let head = before_eq_of(&joined);
    let head = trim_of(&head);
    let name = strip_trailing_of(&head, ',');
    if name.len() == 0 {
        None
    } else {
        Some((is_out, name))
    }
}

fn outputs_of(params: &Vec<Vec<char>>) -> (r: Vec<Vec<char>>)
    ensures
        views(r@) == outputs_from(views(params@), 0),
{
    let mut out: Vec<Vec<char>> = Vec::new();
    let mut k: usize = params.len();
    while k > 0
        invariant
            k <= params.len(),
            views(out@) == outputs_from(views(params@), k as int),
        decreases k,
    {
        k = k - 1;
        match osl_param_head_of(&params[k]) {
            Some((true, name)) => {
                let ghost old_out = views(out@);
                out.insert(0, name);
                assert(views(out@) =~= seq![name@] + old_out);
            },
            _ => {},
        }
    }
    out
}

fn signature_outputs_of(s: &[char]) -> (r: Vec<Vec<char>>)
    ensures
        views(r@) == signature_outputs(s@),
{
    match osl_parameter_list_of(s) {
        Some(pl) => {
            let parts = split_top_level_commas_of(&pl);
            outputs_of(&parts)
        },
        None => Vec::new(),
    }
}

// ---------------------------------------------------------------------------
// Shader and `fn main` bodies
// ---------------------------------------------------------------------------

/// Index just past the `)` closing the first `(` of `s`, when balanced.
pub open spec fn paren_end(s: Seq<char>) -> Option<int> {
    match find(s, seq!['(']) {
        None => None,
        Some(op) => match balanced_delimiter_offset(s.subrange(op, s.len() as int), '(', ')') {
            None => None,
            Some(cp) => Some(op + cp + 1),
        },
    }
}

/// Index of the first `{` at or after `from`.
pub open spec fn brace_after(s: Seq<char>, from: int) -> Option<int> {
    match find(s.subrange(from, s.len() as int), seq!['{']) {
        Some(o) => Some(from + o),
        None => None,
    }
}

/// Opening `{` of the shader body (after `fn main(...)` / `void name(...)` when present).
pub open spec fn body_open_brace(s: Seq<char>) -> Option<int> {
    if fn_main_params(s) is Some {
        let mi = find(lower(s), kw_main())->0;
        match paren_end(s.subrange(mi + 4, s.len() as int)) {
            None => None,
            Some(pe) => brace_after(s, mi + 4 + pe),
        }
    } else if void_params(s) is Some {
        let vi = find(lower(s), kw_void())->0;
        let base = vi + 5 + skip_ws_from(s.subrange(vi + 5, s.len() as int), 0);
        match paren_end(s.subrange(base, s.len() as int)) {
            None => None,
            Some(pe) => brace_after(s, base + pe),
        }
    } else {
        find(s, seq!['{'])
    }
}

/// Text inside the shader body braces, trimmed and comment-stripped.
pub open spec fn shader_body(s: Seq<char>) -> Option<Seq<char>> {
    match body_open_brace(s) {
        None => None,
        Some(o) => {
            let rest = s.subrange(o + 1, s.len() as int);
            match balanced_closing_brace_offset(rest) {
                None => None,
                Some(c) => Some(strip_line_comments(trim(rest.subrange(0, c)))),
            }
        },
    }
}

/// Body text of a legacy `fn main(...) { ... }`, trimmed.
pub open spec fn fn_main_body(s: Seq<char>) -> Option<Seq<char>> {
    match find(lower(s), kw_fn_main()) {
        None => None,
        Some(fs) => {
            let after = s.subrange(fs, s.len() as int);
            match paren_end(after) {
                None => None,
                Some(pe) => {
                    let ac = after.subrange(pe, after.len() as int);
                    match find(ac, seq!['{']) {
                        None => None,
                        Some(ob) => {
                            let rest = ac.subrange(ob + 1, ac.len() as int);
                            match balanced_closing_brace_offset(rest) {
                                None => None,
                                Some(cb) => Some(trim(rest.subrange(0, cb))),
                            }
                        },
                    }
                },
            }
        },
    }
}

fn paren_end_of(s: &[char]) -> (r: Option<usize>)
    ensures
        r matches Some(e) ==> paren_end(s@) == Some(e as int) && e <= s@.len(),
        r is None ==> paren_end(s@) is None,
{
    match find_ch(s, '(') {
        None => None,
        Some(op) => {
            proof {
                lemma_find_from_props(s@, seq!['('], 0);
            }
            let tail = slice_of(s, op, s.len());
            match balanced_offset(&tail, '(', ')') {
                None => None,
                Some(cp) => Some(op + cp + 1),
            }
        },
    }
}

fn brace_after_of(s: &[char], from: usize) -> (r: Option<usize>)
    requires
        from <= s@.len(),
    ensures
        r matches Some(e) ==> brace_after(s@, from as int) == Some(e as int) && e < s@.len(),
        r is None ==> brace_after(s@, from as int) is None,
{
    let tail = slice_of(s, from, s.len());
    match find_ch(&tail, '{') {
        Some(o) => {
            proof {
                lemma_find_from_props(tail@, seq!['{'], 0);
            }
            Some(from + o)
        },
        None => None,
    }
}

fn body_open_brace_of(s: &[char]) -> (r: Option<usize>)
    ensures
        r matches Some(e) ==> body_open_brace(s@) == Some(e as int) && e < s@.len(),
        r is None ==> body_open_brace(s@) is None,
{
    if fn_main_params_of(s).is_some() {
        let lo = lower_of(s);
        let m = v_main();
        let mi = match find_first(&lo, &m) {
            Some(mi) => mi,
            None => {
                return None;
            },
        };
        proof {
            lemma_find_from_props(lo@, kw_main(), 0);
            assert(kw_main().len() == 4);
            assert(mi + 4 <= s.len());
        }
        let after = slice_of(s, mi + 4, s.len());
        match paren_end_of(&after) {
            None => None,
            Some(pe) => brace_after_of(s, mi + 4 + pe),
        }
    } else if void_params_of(s).is_some() {
        let lo = lower_of(s);
        let v = v_void();
        let vi = match find_first(&lo, &v) {
            Some(vi) => vi,
            None => {
                return None;
            },
        };
        proof {
            lemma_find_from_props(lo@, kw_void(), 0);
            assert(kw_void().len() == 5);
            assert(vi + 5 <= s.len());
        }
        let rest = slice_of(s, vi + 5, s.len());
        let skipped = skip_ws(&rest, 0);
        let base = vi + 5 + skipped;
        let after = slice_of(s, base, s.len());
        assert(after@ =~= s@.subrange(base as int, s@.len() as int));
        match paren_end_of(&after) {
            None => None,
            Some(pe) => brace_after_of(s, base + pe),
        }
    } else {
        match find_ch(s, '{') {
            Some(o) => {
                proof {
                    lemma_find_from_props(s@, seq!['{'], 0);
                }
                Some(o)
            },
            None => None,
        }
    }
}

fn shader_body_of(s: &[char]) -> (r: Option<Vec<char>>)
    ensures
        opt_view(r) == shader_body(s@),
{
    match body_open_brace_of(s) {
        None => None,
        Some(o) => {
            assert(o < s.len());
            let rest = slice_of(s, o + 1, s.len());
            match closing_brace_offset(&rest) {
                None => None,
                Some(c) => {
                    let inner = slice_of(&rest, 0, c);
                    let inner = trim_of(&inner);
                    Some(strip_line_comments_of(&inner))
                },
            }
        },
    }
}

fn fn_main_body_of(s: &[char]) -> (r: Option<Vec<char>>)
    ensures
        opt_view(r) == fn_main_body(s@),
{
    let lo = lower_of(s);
    let fm = v_fn_main();
    match find_first(&lo, &fm) {
        None => None,
        Some(fs) => {
            proof {
                lemma_find_from_props(lo@, kw_fn_main(), 0);
            }
            let after = slice_of(s, fs, s.len());
            match paren_end_of(&after) {
                None => None,
                Some(pe) => {
                    let ac = slice_of(&after, pe, after.len());
                    match find_ch(&ac, '{') {
                        None => None,
                        Some(ob) => {
                            proof {
                                lemma_find_from_props(ac@, seq!['{'], 0);
                            }
                            let rest = slice_of(&ac, ob + 1, ac.len());
                            match closing_brace_offset(&rest) {
                                None => None,
                                Some(cb) => {
                                    let inner = slice_of(&rest, 0, cb);
                                    Some(trim_of(&inner))
                                },
                            }
                        },
                    }
                },
            }
        },
    }
}

// ---------------------------------------------------------------------------
// Statements and expressions inside a body
// ---------------------------------------------------------------------------

/// Cut at the first `;` outside parentheses and braces (all of `x` when none).
pub open spec fn stmt_scan(x: Seq<char>, i: int, dp: int, db: int) -> Seq<char>
    decreases x.len() - i,
{
    if i < 0 || i >= x.len() {
        x
    } else {
        let c = x[i];
        if c == '(' {
            stmt_scan(x, i + 1, dp + 1, db)
        } else if c == ')' {
            stmt_scan(x, i + 1, dp - 1, db)
        } else if c == '{' {
            stmt_scan(x, i + 1, dp, db + 1)
        } else if c == '}' && db > 0 {
            stmt_scan(x, i + 1, dp, db - 1)
        } else if c == ';' && dp == 0 && db == 0 {
            x.subrange(0, i)
        } else {
            stmt_scan(x, i + 1, dp, db)
        }
    }
}

pub open spec fn take_until_statement_end(x: Seq<char>) -> Seq<char> {
    stmt_scan(x, 0, 0, 0)
}

/// Trim, drop trailing `;`, trim again.
pub open spec fn strip_statement_terminator(x: Seq<char>) -> Seq<char> {
    trim(strip_trailing(trim(x), ';'))
}

/// The right-hand side text of a statement starting at `x`.
pub open spec fn statement_text(x: Seq<char>) -> Seq<char> {
    strip_statement_terminator(take_until_statement_end(x))
}

/// Byte scan for a top-level `=` that is not part of `==`, `!=`, `<=`, `>=`.
/// A byte of value 0x80 or more advances the cursor by two bytes (the scan
/// ends either way when that passes the end).
pub open spec fn assign_scan(b: Seq<u8>, i: int, dp: int, db: int) -> bool
    decreases b.len() - i,
{
    if i < 0 || i >= b.len() {
        false
    } else {
        let c = b[i];
        let n = if c < 128 || i + 1 >= b.len() {
            i + 1
        } else {
            i + 2
        };
        if c == 40 {
            assign_scan(b, n, dp + 1, db)
        } else if c == 41 {
            assign_scan(b, n, dp - 1, db)
        } else if c == 123 {
            assign_scan(b, n, dp, db + 1)
        } else if c == 125 && db > 0 {
            assign_scan(b, n, dp, db - 1)
        } else if c == 61 && dp == 0 && db == 0 {
            let prev: u8 = if i > 0 {
                b[i - 1]
            } else {
                32
            };
            let next: u8 = if i + 1 < b.len() {
                b[i + 1]
            } else {
                32
            };
            if prev != 61 && prev != 33 && prev != 60 && prev != 62 && next != 61 {
                true
            } else {
                assign_scan(b, n, dp, db)
            }
        } else {
            assign_scan(b, n, dp, db)
        }
    }
}

/// The last `return <expr>` of a body (keyword matched case-insensitively and
/// not preceded by an identifier character).
pub open spec fn last_return_scan(body: Seq<char>, sf: int, last: Option<Seq<char>>) -> Option<
    Seq<char>,
>
    decreases body.len() + 1 - sf,
{
    if sf < 0 || sf > body.len() {
        last
    } else {
        match find_from(lower(body), kw_return(), sf) {
            None => last,
            Some(st) => if st < sf || st + 6 > body.len() {
                last
            } else if st > 0 && is_ident_char(body[st - 1]) {
                last_return_scan(body, st + 6, last)
            } else {
                last_return_scan(
                    body,
                    st + 7,
                    Some(statement_text(trim_start(body.subrange(st + 6, body.len() as int)))),
                )
            },
        }
    }
}

/// First `target = rhs` from `sf` on: `(position, rhs)`.
pub open spec fn assign_rhs_scan(body: Seq<char>, target: Seq<char>, sf: int) -> Option<
    (int, Seq<char>),
>
    decreases body.len() + 1 - sf,
{
    if sf < 0 || sf > body.len() {
        None
    } else {
        match find_from(lower(body), lower(target), sf) {
            None => None,
            Some(st) => if st < sf || st + target.len() > body.len() {
                None
            } else if st > 0 && is_ident_char(body[st - 1]) {
                assign_rhs_scan(body, target, st + 1)
            } else {
                let rest = trim_start(body.subrange(st + target.len(), body.len() as int));
                if !starts_with(rest, seq!['=']) {
                    assign_rhs_scan(body, target, st + 1)
                } else {
                    Some((st, statement_text(trim_start(rest.subrange(1, rest.len() as int)))))
                }
            },
        }
    }
}

/// The right-hand side of the last `target = rhs` from `sf` on.
pub open spec fn last_assign_scan(
    body: Seq<char>,
    target: Seq<char>,
    sf: int,
    last: Option<Seq<char>>,
) -> Option<Seq<char>>
    decreases body.len() + 1 - sf,
{
    if sf < 0 || sf > body.len() {
        last
    } else {
        match find_from(lower(body), lower(target), sf) {
            None => last,
            Some(st) => if st < sf || st + target.len() > body.len() {
                last
            } else if st > 0 && is_ident_char(body[st - 1]) {
                last_assign_scan(body, target, st + 1, last)
            } else {
                let rest = trim_start(body.subrange(st + target.len(), body.len() as int));
                if !starts_with(rest, seq!['=']) {
                    last_assign_scan(body, target, st + 1, last)
                } else {
                    last_assign_scan(
                        body,
                        target,
                        st + target.len() + 1,
                        Some(statement_text(trim_start(rest.subrange(1, rest.len() as int)))),
                    )
                }
            },
        }
    }
}

/// Earliest assignment to any of `outs[k..]`, ties keeping the earlier output.
pub open spec fn earliest_scan(
    body: Seq<char>,
    outs: Seq<Seq<char>>,
    k: int,
    best: Option<(int, Seq<char>)>,
) -> Option<(int, Seq<char>)>
    decreases outs.len() - k,
{
    if k < 0 || k >= outs.len() {
        best
    } else {
        let nb = match assign_rhs_scan(body, outs[k], 0) {
            Some((p, r)) => match best {
                None => Some((p, r)),
                Some((bp, _)) => if p < bp {
                    Some((p, r))
                } else {
                    best
                },
            },
            None => best,
        };
        earliest_scan(body, outs, k + 1, nb)
    }
}

pub open spec fn earliest_output_rhs(body: Seq<char>, outs: Seq<Seq<char>>) -> Option<Seq<char>> {
    match earliest_scan(body, outs, 0, None) {
        Some((_, r)) => Some(r),
        None => None,
    }
}

/// The first whitespace-separated word is an OSL type keyword.
pub open spec fn starts_with_osl_type_decl(x: Seq<char>) -> bool {
    let ts = tokens(trim(x));
    ts.len() > 0 && is_osl_type(ts[0])
}

/// The final `return` expression of a block; a lone expression is itself the result.
pub open spec fn compilable_expression(body: Seq<char>) -> Option<Seq<char>> {
    let b = trim(body);
    if b.len() == 0 {
        None
    } else if starts_with(b, kw_return()) {
        Some(strip_statement_terminator(trim(b.subrange(6, b.len() as int))))
    } else {
        match last_return_scan(b, 0, None) {
            Some(e) => Some(e),
            None => if !assign_scan(encode_utf8(b), 0, 0, 0) && !contains(b, seq![';'])
                && !starts_with_osl_type_decl(b) {
                Some(b)
            } else {
                None
            },
        }
    }
}

/// Shader bodies: a `return`, else the earliest output assignment, else the last `signal = ...`.
pub open spec fn compilable_expression_osl(body: Seq<char>, outs: Seq<Seq<char>>) -> Option<Seq<char>> {
    match compilable_expression(body) {
        Some(e) => Some(e),
        None => match earliest_output_rhs(body, outs) {
            Some(e) => Some(e),
            None => last_assign_scan(body, kw_signal(), 0, None),
        },
    }
}

/// What `normalize_script_for_compile` returns for `source`.
pub open spec fn normalized_script(source: Seq<char>) -> Seq<char> {
    let t = trim(strip_line_comments(source));
    if is_osl_shader_source(t) {
        let outs = signature_outputs(t);
        match shader_body(t) {
            Some(body) => match compilable_expression_osl(strip_line_comments(body), outs) {
                Some(e) => e,
                None => Seq::empty(),
            },
            None => Seq::empty(),
        }
    } else if contains(lower(t), kw_fn_main()) {
        match fn_main_body(t) {
            Some(b) => match compilable_expression(strip_line_comments(b)) {
                Some(e) => if e.len() > 0 {
                    e
                } else {
                    t
                },
                None => t,
            },
            None => t,
        }
    } else {
        t
    }
}

proof fn lemma_assign_scans_at_end(body: Seq<char>, target: Seq<char>, last: Option<Seq<char>>)
    ensures
        assign_rhs_scan(body, target, body.len() as int) is None,
        last_assign_scan(body, target, body.len() as int, last) == last,
{
    let n = body.len() as int;
    assert(lower(target).len() == target.len());
    assert(lower(body).len() == body.len());
    if target.len() == 0 {
        assert(occurs_at(lower(body), lower(target), n)) by {
            assert(lower(body).subrange(n, n) =~= lower(target));
        }
        assert(find_from(lower(body), lower(target), n) == Some(n));
        let rest = trim_start(body.subrange(n, n));
        assert(rest =~= Seq::<char>::empty()) by {
            lemma_skip_ws_bounds(body.subrange(n, n), 0);
        }
        assert(!starts_with(rest, seq!['=']));
        assert(assign_rhs_scan(body, target, n + 1) is None);
        assert(last_assign_scan(body, target, n + 1, last) == last);
        assert(assign_rhs_scan(body, target, n) == assign_rhs_scan(body, target, n + 1));
        assert(last_assign_scan(body, target, n, last) == last_assign_scan(body, target, n + 1, last));
    } else {
        assert(find_from(lower(body), lower(target), n) is None);
    }
}

fn take_until_statement_end_of(x: &[char]) -> (r: Vec<char>)
    ensures
        r@ == take_until_statement_end(x@),
{
    let mut opens: usize = 0;
    let mut closes: usize = 0;
    let mut db: usize = 0;
    let mut i: usize = 0;
    while i < x.len()
        invariant
            i <= x@.len(),
            opens <= i,
            closes <= i,
            db <= i,
            stmt_scan(x@, 0, 0, 0) == stmt_scan(x@, i as int, opens - closes, db as int),
        decreases x.len() - i,
    {
        let c = x[i];
        if c == '(' {
            opens = opens + 1;
        } else if c == ')' {
            closes = closes + 1;
        } else if c == '{' {
            db = db + 1;
        } else if c == '}' && db > 0 {
            db = db - 1;
        } else if c == ';' && opens == closes && db == 0 {
            return slice_of(x, 0, i);
        }
        i = i + 1;
    }
    slice_of(x, 0, x.len())
}

fn strip_statement_terminator_of(x: &[char]) -> (r: Vec<char>)
    ensures
        r@ == strip_statement_terminator(x@),
{
    let t = trim_of(x);
    let t = strip_trailing_of(&t, ';');
    trim_of(&t)
}

fn statement_text_of(x: &[char]) -> (r: Vec<char>)
    ensures
        r@ == statement_text(x@),
{
    let t = take_until_statement_end_of(x);
    strip_statement_terminator_of(&t)
}

fn has_top_level_assignment(b: &[u8]) -> (r: bool)
    ensures
        r == assign_scan(b@, 0, 0, 0),
{
    let mut opens: usize = 0;
    let mut closes: usize = 0;
    let mut db: usize = 0;
    let mut i: usize = 0;
    while i < b.len()
        invariant
            i <= b@.len(),
            opens <= i,
            closes <= i,
            db <= i,
            assign_scan(b@, 0, 0, 0) == assign_scan(b@, i as int, opens - closes, db as int),
        decreases b.len() - i,
    {
        let c = b[i];
        let n = if c < 128 || i + 1 >= b.len() {
            i + 1
        } else {
            i + 2
        };
        if c == 40 {
            opens = opens + 1;
        } else if c == 41 {
            closes = closes + 1;
        } else if c == 123 {
            db = db + 1;
        } else if c == 125 && db > 0 {
            db = db - 1;
        } else if c == 61 && opens == closes && db == 0 {
            let prev: u8 = if i > 0 {
                b[i - 1]
            } else {
                32
            };
            let next: u8 = if i + 1 < b.len() {
                b[i + 1]
            } else {
                32
            };
            if prev != 61 && prev != 33 && prev != 60 && prev != 62 && next != 61 {
                return true;
            }
        }
        i = n;
    }
    false
}

fn last_return_of(body: &[char]) -> (r: Option<Vec<char>>)
    ensures
        opt_view(r) == last_return_scan(body@, 0, None),
{
    let lo = lower_of(body);
    let kw = v_return();
    let mut sf: usize = 0;
    let mut last: Option<Vec<char>> = None;
    while sf < body.len()
        invariant
            sf <= body@.len(),
            lo@ == lower(body@),
            kw@ == kw_return(),
            last_return_scan(body@, 0, None) == last_return_scan(body@, sf as int, opt_view(last)),
        decreases body.len() - sf,
    {
        proof {
            lemma_find_from_props(lo@, kw_return(), sf as int);
        }
        match find_at_or_after(&lo, &kw, sf) {
            None => {
                return last;
            },
            Some(st) => {
                if st > 0 && is_ident_ch(body[st - 1]) {
                    sf = st + 6;
                } else {
                    let tail = slice_of(body, st + 6, body.len());
                    let tail = trim_start_of(&tail);
                    last = Some(statement_text_of(&tail));
                    if st + 6 < body.len() {
                        sf = st + 7;
                    } else {
                        sf = body.len();
                        assert(last_return_scan(body@, (st + 7) as int, opt_view(last))
                            == last_return_scan(body@, sf as int, opt_view(last))) by {
                            lemma_find_from_props(lo@, kw_return(), sf as int);
                        }
                    }
                }
            },
        }
    }
    proof {
        lemma_find_from_props(lo@, kw_return(), sf as int);
    }
    last
}

fn assign_rhs_of(body: &[char], target: &[char]) -> (r: Option<(usize, Vec<char>)>)
    ensures
        match r {
            Some((p, v)) => assign_rhs_scan(body@, target@, 0) == Some((p as int, v@)),
            None => assign_rhs_scan(body@, target@, 0) is None,
        },
{
    let lo = lower_of(body);
    let lt = lower_of(target);
    let mut sf: usize = 0;
    while sf < body.len()
        invariant
            sf <= body@.len(),
            lo@ == lower(body@),
            lt@ == lower(target@),
            assign_rhs_scan(body@, target@, 0) == assign_rhs_scan(body@, target@, sf as int),
        decreases body@.len() - sf,
    {
        proof {
            lemma_find_from_props(lo@, lt@, sf as int);
        }
        match find_at_or_after(&lo, &lt, sf) {
            None => {
                return None;
            },
            Some(st) => {
                assert(st + target@.len() <= body@.len());
                if st > 0 && is_ident_ch(body[st - 1]) {
                    if st < body.len() {
                        sf = st + 1;
                    } else {
                        sf = body.len();
                        proof {
                            lemma_assign_scans_at_end(body@, target@, None);
                        }
                    }
                } else {
                    let tail = slice_of(body, st + target.len(), body.len());
                    let rest = trim_start_of(&tail);
                    if rest.len() == 0 || rest[0] != '=' {
                        assert(!starts_with(rest@, seq!['='])) by {
                            if rest@.len() > 0 {
                                assert(rest@.subrange(0, 1)[0] == rest@[0]);
                            }
                        }
                        if st < body.len() {
                        sf = st + 1;
                    } else {
                        sf = body.len();
                        proof {
                            lemma_assign_scans_at_end(body@, target@, None);
                        }
                    }
                    } else {
                        assert(starts_with(rest@, seq!['='])) by {
                            assert(rest@.subrange(0, 1) =~= seq!['=']);
                        }
                        let after_eq = slice_of(&rest, 1, rest.len());
                        let after_eq = trim_start_of(&after_eq);
                        let rhs = statement_text_of(&after_eq);
                        return Some((st, rhs));
                    }
                }
            },
        }
    }
    proof {
        lemma_assign_scans_at_end(body@, target@, None);
    }
    None
}

fn last_assign_of(body: &[char], target: &[char]) -> (r: Option<Vec<char>>)
    ensures
        opt_view(r) == last_assign_scan(body@, target@, 0, None),
{
    let lo = lower_of(body);
    let lt = lower_of(target);
    let mut sf: usize = 0;
    let mut last: Option<Vec<char>> = None;
    while sf < body.len()
        invariant
            sf <= body@.len(),
            lo@ == lower(body@),
            lt@ == lower(target@),
            last_assign_scan(body@, target@, 0, None) == last_assign_scan(
                body@,
                target@,
                sf as int,
                opt_view(last),
            ),
        decreases body@.len() - sf,
    {
        proof {
            lemma_find_from_props(lo@, lt@, sf as int);
        }
        match find_at_or_after(&lo, &lt, sf) {
            None => {
                return last;
            },
            Some(st) => {
                assert(st + target@.len() <= body@.len());
                if st > 0 && is_ident_ch(body[st - 1]) {
                    if st < body.len() {
                        sf = st + 1;
                    } else {
                        sf = body.len();
                        proof {
                            lemma_assign_scans_at_end(body@, target@, opt_view(last));
                        }
                    }
                } else {
                    let tail = slice_of(body, st + target.len(), body.len());
                    let rest = trim_start_of(&tail);
                    if rest.len() == 0 || rest[0] != '=' {
                        assert(!starts_with(rest@, seq!['='])) by {
                            if rest@.len() > 0 {
                                assert(rest@.subrange(0, 1)[0] == rest@[0]);
                            }
                        }
                        if st < body.len() {
                        sf = st + 1;
                    } else {
                        sf = body.len();
                        proof {
                            lemma_assign_scans_at_end(body@, target@, opt_view(last));
                        }
                    }
                    } else {
                        assert(starts_with(rest@, seq!['='])) by {
                            assert(rest@.subrange(0, 1) =~= seq!['=']);
                        }
                        let after_eq = slice_of(&rest, 1, rest.len());
                        let after_eq = trim_start_of(&after_eq);
                        last = Some(statement_text_of(&after_eq));
                        proof {
                            lemma_skip_ws_bounds(tail@, 0);
                        }
                        sf = st + target.len() + 1;
                    }
                }
            },
        }
    }
    proof {
        lemma_assign_scans_at_end(body@, target@, opt_view(last));
    }
    last
}

fn earliest_output_rhs_of(body: &[char], outs: &Vec<Vec<char>>) -> (r: Option<Vec<char>>)
    ensures
        opt_view(r) == earliest_output_rhs(body@, views(outs@)),
{
    let mut best: Option<(usize, Vec<char>)> = None;
    let mut k: usize = 0;
    let ghost ov = views(outs@);
    while k < outs.len()
        invariant
            k <= outs.len(),
            ov == views(outs@),
            earliest_scan(body@, ov, 0, None) == earliest_scan(
                body@,
                ov,
                k as int,
                match best {
                    Some((p, v)) => Some((p as int, v@)),
                    None => None,
                },
            ),
        decreases outs.len() - k,
    {
        match assign_rhs_of(body, &outs[k]) {
            Some((p, r)) => {
                let replace = match &best {
                    None => true,
                    Some((bp, _)) => p < *bp,
                };
                if replace {
                    best = Some((p, r));
                }
            },
            None => {},
        }
        k = k + 1;
    }
    match best {
        Some((_, r)) => Some(r),
        None => None,
    }
}

fn starts_with_osl_type_decl_of(x: &[char]) -> (r: bool)
    ensures
        r == starts_with_osl_type_decl(x@),
{
    let t = trim_of(x);
    let ts = tokens_of(&t);
    ts.len() > 0 && is_osl_type_of(&ts[0])
}

fn compilable_expression_of(body: &[char]) -> (r: Option<Vec<char>>)
    ensures
        opt_view(r) == compilable_expression(body@),
{
    let b = trim_of(body);
    if b.len() == 0 {
        return None;
    }
    let kw = v_return();
    if starts_with_chars(&b, &kw) {
        let tail = slice_of(&b, 6, b.len());
        let tail = trim_of(&tail);
        return Some(strip_statement_terminator_of(&tail));
    }
    match last_return_of(&b) {
        Some(e) => Some(e),
        None => {
            let text = string_of(&b);
            let bytes = text.as_str().as_bytes();
            let semi = vec![';'];
            assert(semi@ =~= seq![';']);
            if !has_top_level_assignment(bytes) && !contains_chars(&b, &semi)
                && !starts_with_osl_type_decl_of(&b) {
                Some(b)
            } else {
                None
            }
        },
    }
}

fn compilable_expression_osl_of(body: &[char], outs: &Vec<Vec<char>>) -> (r: Option<Vec<char>>)
    ensures
        opt_view(r) == compilable_expression_osl(body@, views(outs@)),
{
    match compilable_expression_of(body) {
        Some(e) => Some(e),
        None => match earliest_output_rhs_of(body, outs) {
            Some(e) => Some(e),
            None => {
                let sig = v_signal();
                last_assign_of(body, &sig)
            },
        },
    }
}

/// Strip an OSL/C-style shader wrapper or legacy `fn main` block down to a
/// compilable expression. A braced OSL shader without an extractable
/// expression yields the empty string.
pub fn normalize_script_for_compile(source: &str) -> (r: String)
    ensures
        r@ == normalized_script(source@),
{
    let src = chars_of(source);
    let stripped = strip_line_comments_of(&src);
    let t = trim_of(&stripped);
    if is_osl_shader_source_of(&t) {
        let outs = signature_outputs_of(&t);
        match shader_body_of(&t) {
            Some(body) => {
                let body = strip_line_comments_of(&body);
                match compilable_expression_osl_of(&body, &outs) {
                    Some(e) => string_of(&e),
                    None => String::new(),
                }
            },
            None => String::new(),
        }
    } else {
        let lo = lower_of(&t);
        let fm = v_fn_main();
        if contains_chars(&lo, &fm) {
            match fn_main_body_of(&t) {
                Some(b) => {
                    let b = strip_line_comments_of(&b);
                    match compilable_expression_of(&b) {
                        Some(e) => if e.len() > 0 {
                            string_of(&e)
                        } else {
                            string_of(&t)
                        },
                        None => string_of(&t),
                    }
                },
                None => string_of(&t),
            }
        } else {
            string_of(&t)
        }
    }
}


/// The body of an OSL shader between its braces, trimmed and comment-stripped.
pub fn extract_osl_shader_body(source: &str) -> (r: Option<String>)
    ensures
        r matches Some(b) ==> shader_body(source@) == Some(b@),
        r is None ==> shader_body(source@) is None,
{
    match shader_body_of(&chars_of(source)) {
        Some(b) => Some(string_of(&b)),
        None => None,
    }
}

/// The body of a legacy `fn main(...) { ... }`.
pub fn extract_fn_main_body(source: &str) -> (r: Option<String>)
    ensures
        r matches Some(b) ==> fn_main_body(source@) == Some(b@),
        r is None ==> fn_main_body(source@) is None,
{
    match fn_main_body_of(&chars_of(source)) {
        Some(b) => Some(string_of(&b)),
        None => None,
    }
}

/// The source with each line's `//` comment removed.
pub fn strip_line_comments_text(source: &str) -> (r: String)
    ensures
        r@ == strip_line_comments(source@),
{
    string_of(&strip_line_comments_of(&chars_of(source)))
}

} // verus!
