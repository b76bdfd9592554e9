//! Character-level text primitives shared by the script and layer modules.
//!
//! Every exec function here works on character sequences and is specified by a
//! spec function over `Seq<char>`; the spec functions follow the behaviour of
//! the corresponding `str` methods (`trim`, `find`, `to_ascii_lowercase`, ...).

use vstd::prelude::*;

verus! {

// ---------------------------------------------------------------------------
// Character classes
// ---------------------------------------------------------------------------

/// Unicode `White_Space` (what `char::is_whitespace` accepts).
pub open spec fn is_ws(c: char) -> bool {
    let u = c as u32;
    ||| u == 0x20
    ||| (0x09 <= u && u <= 0x0d)
    ||| u == 0x85
    ||| u == 0xa0
    ||| u == 0x1680
    ||| (0x2000 <= u && u <= 0x200a)
    ||| u == 0x2028
    ||| u == 0x2029
    ||| u == 0x202f
    ||| u == 0x205f
    ||| u == 0x3000
}

/// ASCII letters and digits.
pub open spec fn is_ascii_alnum(c: char) -> bool {
    ('a' <= c && c <= 'z') || ('A' <= c && c <= 'Z') || ('0' <= c && c <= '9')
}

/// Identifier characters accepted in shader and parameter names.
pub open spec fn is_ident_char(c: char) -> bool {
    is_ascii_alnum(c) || c == '_'
}

/// ASCII lower-casing of one character (what `char::to_ascii_lowercase` does).
pub open spec fn ascii_lower(c: char) -> char {
    if 'A' <= c && c <= 'Z' {
        ((c as u32) + 32) as char
    } else {
        c
    }
}

/// ASCII upper-casing of one character.
pub open spec fn ascii_upper(c: char) -> char {
    if 'a' <= c && c <= 'z' {
        ((c as u32) - 32) as char
    } else {
        c
    }
}

pub open spec fn lower(s: Seq<char>) -> Seq<char> {
    Seq::new(s.len(), |i: int| ascii_lower(s[i]))
}

pub open spec fn upper(s: Seq<char>) -> Seq<char> {
    Seq::new(s.len(), |i: int| ascii_upper(s[i]))
}

pub fn is_ws_char(c: char) -> (b: bool)
    ensures
        b == is_ws(c),
{
    let u = c as u32;
    u == 0x20 || (0x09 <= u && u <= 0x0d) || u == 0x85 || u == 0xa0 || u == 0x1680 || (0x2000
        <= u && u <= 0x200a) || u == 0x2028 || u == 0x2029 || u == 0x202f || u == 0x205f || u
        == 0x3000
}

pub fn is_alnum_char(c: char) -> (b: bool)
    ensures
        b == is_ascii_alnum(c),
{
    ('a' <= c && c <= 'z') || ('A' <= c && c <= 'Z') || ('0' <= c && c <= '9')
}

pub fn is_ident_ch(c: char) -> (b: bool)
    ensures
        b == is_ident_char(c),
{
    is_alnum_char(c) || c == '_'
}

pub fn lower_char(c: char) -> (r: char)
    ensures
        r == ascii_lower(c),
{
    if 'A' <= c && c <= 'Z' {
        let b = c as u8;
        let r = (b + 32) as char;
        assert(r as u32 == c as u32 + 32);
        r
    } else {
        c
    }
}

pub fn upper_char(c: char) -> (r: char)
    ensures
        r == ascii_upper(c),
{
    if 'a' <= c && c <= 'z' {
        let b = c as u8;
        let r = (b - 32) as char;
        r
    } else {
        c
    }
}

// ---------------------------------------------------------------------------
// Conversions between `str` / `String` and character vectors
// ---------------------------------------------------------------------------

/// Copy the characters of `s` into a vector.
pub fn chars_of(s: &str) -> (out: Vec<char>)
    ensures
        out@ == s@,
{
    let n = s.unicode_len();
    let mut out: Vec<char> = Vec::new();
    let mut i: usize = 0;
    while i < n
        invariant
            n == s@.len(),
            i <= n,
            out@ == s@.subrange(0, i as int),
        decreases n - i,
    {
        out.push(s.get_char(i));
        i = i + 1;
    }
    out
}

/// `String::push`: appends one character.
#[verifier::external_body]
fn push_char(s: &mut String, c: char)
    ensures
        final(s)@ == old(s)@.push(c),
{
    s.push(c);
}

/// Build a `String` holding exactly the characters of `v`.
pub fn string_of(v: &[char]) -> (out: String)
    ensures
        out@ == v@,
{
    let mut out = String::new();
    let mut i: usize = 0;
    while i < v.len()
        invariant
            i <= v.len(),
            out@ == v@.subrange(0, i as int),
        decreases v.len() - i,
    {
        push_char(&mut out, v[i]);
        i = i + 1;
    }
    out
}

/// Copy `s[lo..hi]`.
pub fn slice_of(s: &[char], lo: usize, hi: usize) -> (out: Vec<char>)
    requires
        lo <= hi <= s@.len(),
    ensures
        out@ == s@.subrange(lo as int, hi as int),
{
    let mut out: Vec<char> = Vec::new();
    let mut i = lo;
    while i < hi
        invariant
            lo <= i <= hi <= s@.len(),
            out@ == s@.subrange(lo as int, i as int),
        decreases hi - i,
    {
        out.push(s[i]);
        i = i + 1;
    }
    out
}

/// Append all of `b` to `a`.
pub fn append_chars(a: &mut Vec<char>, b: &[char])
    ensures
        final(a)@ == old(a)@ + b@,
{
    let mut i: usize = 0;
    while i < b.len()
        invariant
            i <= b.len(),
            a@ == old(a)@ + b@.subrange(0, i as int),
        decreases b.len() - i,
    {
        a.push(b[i]);
        i = i + 1;
    }
}

pub fn lower_of(s: &[char]) -> (out: Vec<char>)
    ensures
        out@ == lower(s@),
{
    let mut out: Vec<char> = Vec::new();
    let mut i: usize = 0;
    while i < s.len()
        invariant
            i <= s.len(),
            out@ =~= lower(s@).subrange(0, i as int),
        decreases s.len() - i,
    {
        out.push(lower_char(s[i]));
        i = i + 1;
    }
    out
}

pub fn upper_of(s: &[char]) -> (out: Vec<char>)
    ensures
        out@ == upper(s@),
{
    let mut out: Vec<char> = Vec::new();
    let mut i: usize = 0;
    while i < s.len()
        invariant
            i <= s.len(),
            out@ =~= upper(s@).subrange(0, i as int),
        decreases s.len() - i,
    {
        out.push(upper_char(s[i]));
        i = i + 1;
    }
    out
}

pub fn seq_eq(a: &[char], b: &[char]) -> (r: bool)
    ensures
        r == (a@ == b@),
{
    if a.len() != b.len() {
        return false;
    }
    let mut i: usize = 0;
    while i < a.len()
        invariant
            a.len() == b.len(),
            i <= a.len(),
            a@.subrange(0, i as int) =~= b@.subrange(0, i as int),
        decreases a.len() - i,
    {
        if a[i] != b[i] {
            assert(a@[i as int] != b@[i as int]);
            return false;
        }
        i = i + 1;
    }
    assert(a@ =~= a@.subrange(0, a.len() as int));
    assert(b@ =~= b@.subrange(0, b.len() as int));
    true
}

// ---------------------------------------------------------------------------
// Trimming
// ---------------------------------------------------------------------------

/// Index of the first non-whitespace character at or after `i`.
pub open spec fn skip_ws_from(s: Seq<char>, i: int) -> int
    decreases s.len() - i,
{
    if 0 <= i < s.len() && is_ws(s[i]) {
        skip_ws_from(s, i + 1)
    } else {
        i
    }
}

/// End of `s[..j]` once trailing whitespace is removed.
pub open spec fn back_ws_from(s: Seq<char>, j: int) -> int
    decreases j,
{
    if 0 < j <= s.len() && is_ws(s[j - 1]) {
        back_ws_from(s, j - 1)
    } else {
        j
    }
}

pub open spec fn trim_start(s: Seq<char>) -> Seq<char> {
    s.subrange(skip_ws_from(s, 0), s.len() as int)
}

pub open spec fn trim_end(s: Seq<char>) -> Seq<char> {
    s.subrange(0, back_ws_from(s, s.len() as int))
}

pub open spec fn trim(s: Seq<char>) -> Seq<char> {
    trim_end(trim_start(s))
}

pub proof fn lemma_skip_ws_bounds(s: Seq<char>, i: int)
    requires
        0 <= i <= s.len(),
    ensures
        i <= skip_ws_from(s, i) <= s.len(),
        forall|k: int| i <= k < skip_ws_from(s, i) ==> is_ws(#[trigger] s[k]),
        skip_ws_from(s, i) < s.len() ==> !is_ws(s[skip_ws_from(s, i)]),
    decreases s.len() - i,
{
    if i < s.len() && is_ws(s[i]) {
        lemma_skip_ws_bounds(s, i + 1);
    }
}

pub proof fn lemma_back_ws_bounds(s: Seq<char>, j: int)
    requires
        0 <= j <= s.len(),
    ensures
        0 <= back_ws_from(s, j) <= j,
        forall|k: int| back_ws_from(s, j) <= k < j ==> is_ws(#[trigger] s[k]),
        back_ws_from(s, j) > 0 ==> !is_ws(s[back_ws_from(s, j) - 1]),
    decreases j,
{
    if 0 < j && is_ws(s[j - 1]) {
        lemma_back_ws_bounds(s, j - 1);
    }
}

/// Lower-casing keeps whitespace whitespace and everything else not.
pub proof fn lemma_lower_keeps_ws(c: char)
    ensures
        is_ws(ascii_lower(c)) == is_ws(c),
        ascii_lower(ascii_lower(c)) == ascii_lower(c),
{
}

/// A text whose ends are not whitespace is its own trim.
pub proof fn lemma_trim_of_tight(s: Seq<char>)
    requires
        s.len() == 0 || (!is_ws(s[0]) && !is_ws(s[s.len() - 1])),
    ensures
        trim(s) == s,
{
    if s.len() > 0 {
        assert(skip_ws_from(s, 0) == 0);
        assert(s.subrange(0, s.len() as int) =~= s);
        assert(back_ws_from(s, s.len() as int) == s.len());
    }
}

/// Trimming and lower-casing a second time changes nothing.
pub proof fn lemma_lower_trim_settles(t: Seq<char>)
    ensures
        trim(lower(trim(t))) == lower(trim(t)),
        lower(lower(trim(t))) == lower(trim(t)),
        lower(trim(lower(trim(t)))) == lower(trim(t)),
{
    let y = trim(t);
    let st = trim_start(t);
    lemma_skip_ws_bounds(t, 0);
    lemma_back_ws_bounds(st, st.len() as int);
    let l = lower(y);
    if y.len() > 0 {
        assert(y[0] == st[0]);
        lemma_lower_keeps_ws(y[0]);
        lemma_lower_keeps_ws(y[y.len() - 1]);
    }
    lemma_trim_of_tight(l);
    assert forall|k: int| 0 <= k < l.len() implies #[trigger] lower(l)[k] == l[k] by {
        lemma_lower_keeps_ws(y[k]);
    }
    assert(lower(l) =~= l);
}

pub fn skip_ws(s: &[char], from: usize) -> (k: usize)
    requires
        from <= s@.len(),
    ensures
        k == skip_ws_from(s@, from as int),
        from <= k <= s@.len(),
{
    proof {
        lemma_skip_ws_bounds(s@, from as int);
    }
    let mut i = from;
    while i < s.len() && is_ws_char(s[i])
        invariant
            from <= i <= s@.len(),
            skip_ws_from(s@, from as int) == skip_ws_from(s@, i as int),
        decreases s.len() - i,
    {
        i = i + 1;
    }
    i
}

pub fn back_ws(s: &[char], to: usize) -> (k: usize)
    requires
        to <= s@.len(),
    ensures
        k == back_ws_from(s@, to as int),
        k <= to,
{
    proof {
        lemma_back_ws_bounds(s@, to as int);
    }
    let mut j = to;
    while j > 0 && is_ws_char(s[j - 1])
        invariant
            j <= to <= s@.len(),
            back_ws_from(s@, to as int) == back_ws_from(s@, j as int),
        decreases j,
    {
        j = j - 1;
    }
    j
}

pub fn trim_start_of(s: &[char]) -> (out: Vec<char>)
    ensures
        out@ == trim_start(s@),
{
    let k = skip_ws(s, 0);
    slice_of(s, k, s.len())
}

pub fn trim_end_of(s: &[char]) -> (out: Vec<char>)
    ensures
        out@ == trim_end(s@),
{
    let k = back_ws(s, s.len());
    slice_of(s, 0, k)
}

pub fn trim_of(s: &[char]) -> (out: Vec<char>)
    ensures
        out@ == trim(s@),
{
    let t = trim_start_of(s);
    trim_end_of(&t)
}

/// `trim_end_matches(c)`: drop every trailing `c`.
pub open spec fn strip_trailing(s: Seq<char>, c: char) -> Seq<char>
    decreases s.len(),
{
    if s.len() > 0 && s.last() == c {
        strip_trailing(s.drop_last(), c)
    } else {
        s
    }
}

pub fn strip_trailing_of(s: &[char], c: char) -> (out: Vec<char>)
    ensures
        out@ == strip_trailing(s@, c),
{
    let mut j = s.len();
    assert(s@.subrange(0, s@.len() as int) =~= s@);
    while j > 0 && s[j - 1] == c
        invariant
            j <= s@.len(),
            strip_trailing(s@, c) == strip_trailing(s@.subrange(0, j as int), c),
        decreases j,
    {
        assert(s@.subrange(0, j as int).drop_last() =~= s@.subrange(0, j - 1));
        j = j - 1;
    }
    slice_of(s, 0, j)
}

// ---------------------------------------------------------------------------
// Searching
// ---------------------------------------------------------------------------

pub open spec fn occurs_at(s: Seq<char>, pat: Seq<char>, i: int) -> bool {
    0 <= i && i + pat.len() <= s.len() && s.subrange(i, i + pat.len()) == pat
}

/// First index `>= i` where `pat` occurs (`str::find` on `s[i..]`, offset by `i`).
pub open spec fn find_from(s: Seq<char>, pat: Seq<char>, i: int) -> Option<int>
    decreases s.len() + 1 - i,
{
    if i < 0 || i + pat.len() > s.len() {
        None
    } else if occurs_at(s, pat, i) {
        Some(i)
    } else {
        find_from(s, pat, i + 1)
    }
}

pub open spec fn find(s: Seq<char>, pat: Seq<char>) -> Option<int> {
    find_from(s, pat, 0)
}

pub open spec fn contains(s: Seq<char>, pat: Seq<char>) -> bool {
    find(s, pat) is Some
}

pub open spec fn starts_with(s: Seq<char>, p: Seq<char>) -> bool {
    p.len() <= s.len() && s.subrange(0, p.len() as int) == p
}

pub open spec fn ends_with(s: Seq<char>, p: Seq<char>) -> bool {
    p.len() <= s.len() && s.subrange(s.len() - p.len(), s.len() as int) == p
}

pub proof fn lemma_find_from_props(s: Seq<char>, pat: Seq<char>, i: int)
    requires
        0 <= i,
    ensures
        find_from(s, pat, i) matches Some(k) ==> i <= k && occurs_at(s, pat, k) && k + pat.len()
            <= s.len() && forall|j: int| i <= j < k ==> !occurs_at(s, pat, j),
        find_from(s, pat, i) is None ==> forall|j: int| i <= j ==> !occurs_at(s, pat, j),
    decreases s.len() + 1 - i,
{
    if i + pat.len() > s.len() {
    } else if occurs_at(s, pat, i) {
    } else {
        lemma_find_from_props(s, pat, i + 1);
    }
}

pub fn matches_at(s: &[char], pat: &[char], i: usize) -> (r: bool)
    requires
        i + pat@.len() <= s@.len(),
    ensures
        r == occurs_at(s@, pat@, i as int),
{
    let mut k: usize = 0;
    while k < pat.len()
        invariant
            i + pat@.len() <= s@.len(),
            i + pat.len() <= s.len(),
            k <= pat@.len(),
            s@.subrange(i as int, i + k) =~= pat@.subrange(0, k as int),
        decreases pat.len() - k,
    {
        if s[i + k] != pat[k] {
            assert(s@.subrange(i as int, i + pat@.len())[k as int] != pat@[k as int]);
            return false;
        }
        k = k + 1;
    }
    assert(pat@.subrange(0, pat@.len() as int) =~= pat@);
    true
}

pub fn find_at_or_after(s: &[char], pat: &[char], from: usize) -> (r: Option<usize>)
    ensures
        r matches Some(k) ==> find_from(s@, pat@, from as int) == Some(k as int),
        r is None ==> find_from(s@, pat@, from as int) is None,
{
    let mut i = from;
    while i <= s.len() && pat.len() <= s.len() - i
        invariant
            from <= i,
            find_from(s@, pat@, from as int) == find_from(s@, pat@, i as int),
        decreases s.len() - i,
    {
        if matches_at(s, pat, i) {
            return Some(i);
        }
        assert(pat@.len() > 0) by {
            if pat@.len() == 0 {
                assert(s@.subrange(i as int, i as int) =~= pat@);
            }
        }
        i = i + 1;
    }
    None
}

pub fn find_first(s: &[char], pat: &[char]) -> (r: Option<usize>)
    ensures
        r matches Some(k) ==> find(s@, pat@) == Some(k as int),
        r is None ==> find(s@, pat@) is None,
{
    find_at_or_after(s, pat, 0)
}

pub fn find_ch(s: &[char], c: char) -> (r: Option<usize>)
    ensures
        r matches Some(k) ==> find(s@, seq![c]) == Some(k as int),
        r is None ==> find(s@, seq![c]) is None,
{
    let pat = vec![c];
    proof {
        assert(pat@ =~= seq![c]);
    }
    find_first(s, &pat)
}

pub fn contains_chars(s: &[char], pat: &[char]) -> (r: bool)
    ensures
        r == contains(s@, pat@),
{
    find_first(s, pat).is_some()
}

pub fn starts_with_chars(s: &[char], p: &[char]) -> (r: bool)
    ensures
        r == starts_with(s@, p@),
{
    if p.len() > s.len() {
        return false;
    }
    matches_at(s, p, 0)
}

pub fn ends_with_chars(s: &[char], p: &[char]) -> (r: bool)
    ensures
        r == ends_with(s@, p@),
{
    if p.len() > s.len() {
        return false;
    }
    matches_at(s, p, s.len() - p.len())
}

// ---------------------------------------------------------------------------
// Decimal numbers
// ---------------------------------------------------------------------------

pub open spec fn is_digit(c: char) -> bool {
    '0' <= c && c <= '9'
}

pub open spec fn all_digits(s: Seq<char>) -> bool {
    forall|i: int| 0 <= i < s.len() ==> is_digit(#[trigger] s[i])
}

pub open spec fn digit_value(c: char) -> nat {
    ((c as u32) - ('0' as u32)) as nat
}

/// Value of a run of decimal digits.
pub open spec fn digits_value(s: Seq<char>) -> nat
    decreases s.len(),
{
    if s.len() == 0 {
        0
    } else {
        digits_value(s.drop_last()) * 10 + digit_value(s.last())
    }
}

pub open spec fn digit_char(d: nat) -> char {
    (('0' as u32) + d) as char
}

/// Shortest decimal text of `n` (what `format!("{}", n)` prints).
pub open spec fn decimal(n: nat) -> Seq<char>
    decreases n,
{
    if n < 10 {
        seq![digit_char(n)]
    } else {
        decimal(n / 10) + seq![digit_char(n % 10)]
    }
}

/// `str::parse::<usize>`: optional `+`, then at least one digit, in range.
pub open spec fn parse_usize(s: Seq<char>) -> Option<nat> {
    let digits = if s.len() > 0 && s[0] == '+' {
        s.subrange(1, s.len() as int)
    } else {
        s
    };
    if digits.len() == 0 || !all_digits(digits) || digits_value(digits) > usize::MAX {
        None
    } else {
        Some(digits_value(digits))
    }
}

pub fn is_digit_char(c: char) -> (r: bool)
    ensures
        r == is_digit(c),
{
    '0' <= c && c <= '9'
}

pub fn all_digits_of(s: &[char]) -> (r: bool)
    ensures
        r == all_digits(s@),
{
    let mut i: usize = 0;
    while i < s.len()
        invariant
            i <= s@.len(),
            forall|j: int| 0 <= j < i ==> is_digit(#[trigger] s@[j]),
        decreases s.len() - i,
    {
        if !is_digit_char(s[i]) {
            return false;
        }
        i = i + 1;
    }
    true
}

pub fn parse_usize_of(s: &[char]) -> (r: Option<usize>)
    ensures
        r matches Some(v) ==> parse_usize(s@) == Some(v as nat),
        r is None ==> parse_usize(s@) is None,
{
    let start: usize = if s.len() > 0 && s[0] == '+' {
        1
    } else {
        0
    };
    let ghost digits = s@.subrange(start as int, s@.len() as int);
    assert(digits =~= if s@.len() > 0 && s@[0] == '+' {
        s@.subrange(1, s@.len() as int)
    } else {
        s@
    });
    if start >= s.len() {
        return None;
    }
    let mut value: usize = 0;
    let mut i = start;
    while i < s.len()
        invariant
            start <= i <= s@.len(),
            digits == s@.subrange(start as int, s@.len() as int),
            digits == if s@.len() > 0 && s@[0] == '+' {
                s@.subrange(1, s@.len() as int)
            } else {
                s@
            },
            forall|j: int| start <= j < i ==> is_digit(#[trigger] s@[j]),
            value as nat == digits_value(s@.subrange(start as int, i as int)),
        decreases s.len() - i,
    {
        let c = s[i];
        if !is_digit_char(c) {
            assert(!all_digits(digits)) by {
                assert(digits[i - start] == c);
                assert(!is_digit(digits[i - start]));
            }
            return None;
        }
        let d = (c as u32 - '0' as u32) as usize;
        let ghost prefix = s@.subrange(start as int, i + 1);
        assert(prefix.drop_last() =~= s@.subrange(start as int, i as int));
        assert(prefix =~= digits.subrange(0, i + 1 - start));
        assert(prefix.last() == c);
        assert(digit_value(c) == d as nat);
        assert(digits_value(prefix) == value * 10 + d);
        match value.checked_mul(10) {
            Some(v10) => match v10.checked_add(d) {
                Some(nv) => {
                    value = nv;
                },
                None => {
                    proof {
                        lemma_digits_value_prefix_le(digits, (i + 1 - start) as int);
                        assert(digits_value(prefix) > usize::MAX);
                    }
                    return None;
                },
            },
            None => {
                proof {
                    lemma_digits_value_prefix_le(digits, (i + 1 - start) as int);
                    assert(digits_value(prefix) >= value * 10);
                    assert(digits_value(prefix) > usize::MAX);
                }
                return None;
            },
        }
        i = i + 1;
    }
    assert(s@.subrange(start as int, s@.len() as int) =~= digits);
    Some(value)
}

/// A prefix of a digit run never has a larger value than the whole run.
pub proof fn lemma_digits_value_prefix_le(s: Seq<char>, k: int)
    requires
        0 <= k <= s.len(),
    ensures
        digits_value(s.subrange(0, k)) <= digits_value(s),
    decreases s.len() - k,
{
    if k < s.len() {
        lemma_digits_value_prefix_le(s, k + 1);
        assert(s.subrange(0, k + 1).drop_last() =~= s.subrange(0, k));
    } else {
        assert(s.subrange(0, k) =~= s);
    }
}

pub fn decimal_of(n: usize) -> (r: Vec<char>)
    ensures
        r@ == decimal(n as nat),
    decreases n,
{
    let d = (n % 10) as u8;
    let c = ('0' as u8 + d) as char;
    assert(c == digit_char((n % 10) as nat));
    if n < 10 {
        let v = vec![c];
        assert(v@ =~= decimal(n as nat));
        v
    } else {
        let mut head = decimal_of(n / 10);
        head.push(c);
        head
    }
}

} // verus!
