//! Normalization of playhead-style OTL syntax into vectorized series form
//! (`data`-first TA calls).

use crate::text::{
    all_digits, all_digits_of, append_chars, chars_of, contains, contains_chars, decimal,
    decimal_of, find, find_at_or_after, find_ch, find_from, is_alnum_char, is_ascii_alnum,
    is_digit, is_digit_char, is_ws, ends_with, lemma_trim_of_tight, lemma_find_from_props, lemma_skip_ws_bounds, lemma_back_ws_bounds, skip_ws_from, back_ws_from, occurs_at,
    parse_usize, parse_usize_of, seq_eq, slice_of, starts_with, starts_with_chars, string_of,
    trim, trim_of,
};
use crate::ta_config::{compose_uber_script_src, spec_compose_script, TaConfigModel, TaUberSignalConfig};
use vstd::prelude::*;

verus! {

// ---------------------------------------------------------------------------
// `str::replace`
// ---------------------------------------------------------------------------

/// Replace non-overlapping occurrences of `from` (left to right) from index `i` on.
pub open spec fn replace_from(s: Seq<char>, from: Seq<char>, to: Seq<char>, i: int) -> Seq<char>
    decreases s.len() + 1 - i,
{
    if i < 0 || i > s.len() || from.len() == 0 {
        s.subrange(if 0 <= i <= s.len() { i } else { s.len() as int }, s.len() as int)
    } else {
        match find_from(s, from, i) {
            None => s.subrange(i, s.len() as int),
            Some(k) => if k < i || k + from.len() > s.len() {
                s.subrange(i, s.len() as int)
            } else {
                s.subrange(i, k) + to + replace_from(s, from, to, k + from.len())
            },
        }
    }
}

pub open spec fn replace(s: Seq<char>, from: Seq<char>, to: Seq<char>) -> Seq<char> {
    replace_from(s, from, to, 0)
}

fn replace_of(s: &[char], from: &[char], to: &[char]) -> (r: Vec<char>)
    requires
        from@.len() > 0,
    ensures
        r@ == replace(s@, from@, to@),
{
    let mut out: Vec<char> = Vec::new();
    let mut i: usize = 0;
    while i <= s.len()
        invariant
            i <= s@.len() + 1,
            from@.len() > 0,
            i <= s@.len() ==> replace(s@, from@, to@) == out@ + replace_from(s@, from@, to@, i as int),
            i > s@.len() ==> replace(s@, from@, to@) == out@,
        decreases s@.len() + 1 - i,
    {
        proof {
            lemma_find_from_props(s@, from@, i as int);
        }
        match find_at_or_after(s, from, i) {
            None => {
                let tail = slice_of(s, i, s.len());
                append_chars(&mut out, &tail);
                return out;
            },
            Some(k) => {
                let head = slice_of(s, i, k);
                let ghost old_out = out@;
                append_chars(&mut out, &head);
                append_chars(&mut out, to);
                proof {
                    assert(old_out + (s@.subrange(i as int, k as int) + to@ + replace_from(
                        s@,
                        from@,
                        to@,
                        k + from@.len(),
                    )) =~= out@ + replace_from(s@, from@, to@, k + from@.len()));
                }
                i = k + from.len();
            },
        }
    }
    out
}

// ---------------------------------------------------------------------------
// Indicator shorthand: `rsi(period=14)` / `rsi(14)`
// ---------------------------------------------------------------------------

pub open spec fn is_ta_name_char(c: char) -> bool {
    is_ascii_alnum(c) || c == '_' || c == ':'
}

pub open spec fn all_ta_name(s: Seq<char>) -> bool {
    forall|i: int| 0 <= i < s.len() ==> is_ta_name_char(#[trigger] s[i])
}

/// Index of the last `)` (`str::rfind`).
pub open spec fn rfind_close(s: Seq<char>, j: int) -> Option<int>
    decreases j,
{
    if j <= 0 || j > s.len() {
        None
    } else if s[j - 1] == ')' {
        Some(j - 1)
    } else {
        rfind_close(s, j - 1)
    }
}

/// `name(period=N)` or `name(N)` with a positive `N` becomes `name(data, N)`.
/// A last `)` that stands before the first `(` gives no expansion.
pub open spec fn expand_shorthand(source: Seq<char>) -> Option<Seq<char>> {
    match find(source, seq!['(']) {
        None => None,
        Some(open) => {
            let name = trim(source.subrange(0, open));
            if name.len() == 0 || !all_ta_name(name) {
                None
            } else {
                match rfind_close(source, source.len() as int) {
                    None => None,
                    Some(close) => if close < open + 1 {
                        None
                    } else {
                        let args = trim(source.subrange(open + 1, close));
                        if args.len() == 0 {
                            None
                        } else {
                            let period = if starts_with(args, "period="@) {
                                parse_usize(trim(args.subrange(7, args.len() as int)))
                            } else if all_digits(args) {
                                parse_usize(args)
                            } else {
                                None
                            };
                            match period {
                                None => None,
                                Some(p) => if p == 0 {
                                    None
                                } else {
                                    Some(name + "(data, "@ + decimal(p) + ")"@)
                                },
                            }
                        }
                    },
                }
            }
        },
    }
}

fn all_ta_name_of(s: &[char]) -> (r: bool)
    ensures
        r == all_ta_name(s@),
{
    let mut i: usize = 0;
    while i < s.len()
        invariant
            i <= s@.len(),
            forall|j: int| 0 <= j < i ==> is_ta_name_char(#[trigger] s@[j]),
        decreases s.len() - i,
    {
        let c = s[i];
        if !(is_alnum_char(c) || c == '_' || c == ':') {
            return false;
        }
        i = i + 1;
    }
    true
}

fn rfind_close_of(s: &[char]) -> (r: Option<usize>)
    ensures
        r matches Some(k) ==> rfind_close(s@, s@.len() as int) == Some(k as int) && k < s@.len(),
        r is None ==> rfind_close(s@, s@.len() as int) is None,
{
    let mut j = s.len();
    while j > 0 && s[j - 1] != ')'
        invariant
            j <= s@.len(),
            rfind_close(s@, s@.len() as int) == rfind_close(s@, j as int),
        decreases j,
    {
        j = j - 1;
    }
    if j == 0 {
        None
    } else {
        Some(j - 1)
    }
}

fn expand_shorthand_of(source: &[char]) -> (r: Option<Vec<char>>)
    ensures
        match r {
            Some(v) => expand_shorthand(source@) == Some(v@),
            None => expand_shorthand(source@) is None,
        },
{
    let open = match find_ch(source, '(') {
        None => {
            return None;
        },
        Some(o) => o,
    };
    proof {
        lemma_find_from_props(source@, seq!['('], 0);
    }
    let name = slice_of(source, 0, open);
    let name = trim_of(&name);
    if name.len() == 0 || !all_ta_name_of(&name) {
        return None;
    }
    let close = match rfind_close_of(source) {
        None => {
            return None;
        },
        Some(c) => c,
    };
    if close <= open {
        return None;
    }
    let args = slice_of(source, open + 1, close);
    let args = trim_of(&args);
    if args.len() == 0 {
        return None;
    }
    let key = chars_of("period=");
    proof {
        reveal_strlit("period=");
    }
    let period = if starts_with_chars(&args, &key) {
        let rest = slice_of(&args, 7, args.len());
        let rest = trim_of(&rest);
        parse_usize_of(&rest)
    } else if all_digits_of(&args) {
        parse_usize_of(&args)
    } else {
        None
    };
    match period {
        None => None,
        Some(p) => {
            if p == 0 {
                return None;
            }
            let mut out = name;
            append_chars(&mut out, &chars_of("(data, "));
            append_chars(&mut out, &decimal_of(p));
            append_chars(&mut out, &chars_of(")"));
            Some(out)
        },
    }
}

// ---------------------------------------------------------------------------
// Unary TA calls: `sma(3)` becomes `sma(data, 3)`
// ---------------------------------------------------------------------------

/// Offset of the `)` that closes the call whose arguments start at `rest`.
pub open spec fn arg_end_scan(rest: Seq<char>, i: int, depth: int) -> Option<int>
    decreases rest.len() - i,
{
    if i < 0 || i >= rest.len() {
        None
    } else if rest[i] == '(' {
        arg_end_scan(rest, i + 1, depth + 1)
    } else if rest[i] == ')' {
        if depth == 0 {
            Some(i)
        } else {
            arg_end_scan(rest, i + 1, depth - 1)
        }
    } else {
        arg_end_scan(rest, i + 1, depth)
    }
}

pub open spec fn is_series_keyword(a: Seq<char>) -> bool {
    a == "data"@ || a == "input"@ || a == "close"@ || a == "price"@ || a == "x"@
}

pub open spec fn all_numeric(a: Seq<char>) -> bool {
    forall|i: int| 0 <= i < a.len() ==> (is_digit(#[trigger] a[i]) || a[i] == '.')
}

/// Rewrite every `name(N)` with a numeric argument, scanning from `sf`.
pub open spec fn unary_pass(s: Seq<char>, name: Seq<char>, sf: int) -> Seq<char>
    decreases s.len() - sf,
{
    let needle = name + seq!['('];
    if sf < 0 || sf > s.len() {
        s
    } else {
        match find_from(s, needle, sf) {
            None => s,
            Some(pos) => if pos < sf || pos + needle.len() > s.len() {
                s
            } else {
                let start = pos + needle.len();
                let rest = s.subrange(start, s.len() as int);
                match arg_end_scan(rest, 0, 0) {
                    None => s,
                    Some(end) => if end < 0 || start + end >= s.len() {
                        s
                    } else {
                        let arg = trim(rest.subrange(0, end));
                        if arg.len() == 0 || contains(arg, seq![',']) || contains(arg, seq!['('])
                            || is_series_keyword(arg) || !all_numeric(arg) {
                            unary_pass(s, name, start)
                        } else {
                            let replacement = name + "(data, "@ + arg + ")"@;
                            let s2 = s.subrange(0, pos) + replacement + s.subrange(
                                start + end + 1,
                                s.len() as int,
                            );
                            unary_pass(s2, name, pos + replacement.len())
                        }
                    },
                }
            },
        }
    }
}

/// The TA functions whose single numeric argument gets `data` prepended, in order.
pub open spec fn unary_ta_names() -> Seq<Seq<char>> {
    seq![
        "sma"@,
        "ema"@,
        "rsi"@,
        "wma"@,
        "stddev"@,
        "variance"@,
        "atr"@,
        "ta::sma"@,
        "ta::ema"@,
        "ta::rsi"@,
        "ta::wma"@,
        "ta::stddev"@,
        "ta::variance"@,
        "ta::atr"@,
    ]
}

pub open spec fn unary_all(s: Seq<char>, names: Seq<Seq<char>>, k: int) -> Seq<char>
    decreases names.len() - k,
{
    if k < 0 || k >= names.len() {
        s
    } else {
        unary_all(unary_pass(s, names[k], 0), names, k + 1)
    }
}

pub open spec fn normalize_unary_ta_calls(s: Seq<char>) -> Seq<char> {
    unary_all(s, unary_ta_names(), 0)
}

/// What `normalize_for_series_eval` returns.
pub open spec fn spec_normalize_for_series_eval(source: Seq<char>) -> Seq<char> {
    let t = trim(source);
    if t.len() == 0 {
        Seq::empty()
    } else {
        let mapped = replace(replace(t, "(input,"@, "(data,"@), "(input "@, "(data "@);
        match expand_shorthand(mapped) {
            Some(e) => e,
            None => normalize_unary_ta_calls(mapped),
        }
    }
}

fn arg_end_of(rest: &[char]) -> (r: Option<usize>)
    ensures
        r matches Some(k) ==> arg_end_scan(rest@, 0, 0) == Some(k as int) && k < rest@.len(),
        r is None ==> arg_end_scan(rest@, 0, 0) is None,
{
    let mut depth: usize = 0;
    let mut i: usize = 0;
    while i < rest.len()
        invariant
            i <= rest@.len(),
            depth <= i,
            arg_end_scan(rest@, 0, 0) == arg_end_scan(rest@, i as int, depth as int),
        decreases rest.len() - i,
    {
        let c = rest[i];
        if c == '(' {
            depth = depth + 1;
        } else if c == ')' {
            if depth == 0 {
                return Some(i);
            }
            depth = depth - 1;
        }
        i = i + 1;
    }
    None
}

fn is_series_keyword_of(a: &[char]) -> (r: bool)
    ensures
        r == is_series_keyword(a@),
{
    seq_eq(a, &chars_of("data")) || seq_eq(a, &chars_of("input")) || seq_eq(a, &chars_of("close"))
        || seq_eq(a, &chars_of("price")) || seq_eq(a, &chars_of("x"))
}

fn all_numeric_of(a: &[char]) -> (r: bool)
    ensures
        r == all_numeric(a@),
{
    let mut i: usize = 0;
    while i < a.len()
        invariant
            i <= a@.len(),
            forall|j: int| 0 <= j < i ==> (is_digit(#[trigger] a@[j]) || a@[j] == '.'),
        decreases a.len() - i,
    {
        if !(is_digit_char(a[i]) || a[i] == '.') {
            return false;
        }
        i = i + 1;
    }
    true
}

fn unary_pass_of(s: Vec<char>, name: &[char]) -> (r: Vec<char>)
    ensures
        r@ == unary_pass(s@, name@, 0),
{
    let mut out = s;
    let mut needle = slice_of(name, 0, name.len());
    needle.push('(');
    assert(needle@ =~= name@ + seq!['(']);
    let mut sf: usize = 0;
    let comma = vec![','];
    let paren = vec!['('];
    assert(comma@ =~= seq![',']);
    assert(paren@ =~= seq!['(']);
    while sf <= out.len()
        invariant
            sf <= out@.len() + 1,
            needle@ == name@ + seq!['('],
            comma@ == seq![','],
            paren@ == seq!['('],
            sf <= out@.len() ==> unary_pass(s@, name@, 0) == unary_pass(out@, name@, sf as int),
            sf > out@.len() ==> unary_pass(s@, name@, 0) == out@,
        decreases out@.len() + 1 - sf,
    {
        proof {
            lemma_find_from_props(out@, needle@, sf as int);
        }
        let pos = match find_at_or_after(&out, &needle, sf) {
            None => {
                return out;
            },
            Some(p) => p,
        };
        let start = pos + needle.len();
        let rest = slice_of(&out, start, out.len());
        let end = match arg_end_of(&rest) {
            None => {
                return out;
            },
            Some(e) => e,
        };
        let arg = slice_of(&rest, 0, end);
        let arg = trim_of(&arg);
        if arg.len() == 0 || contains_chars(&arg, &comma) || contains_chars(&arg, &paren)
            || is_series_keyword_of(&arg) || !all_numeric_of(&arg) {
            sf = start;
        } else {
            let mut replacement = slice_of(name, 0, name.len());
            append_chars(&mut replacement, &chars_of("(data, "));
            append_chars(&mut replacement, &arg);
            append_chars(&mut replacement, &chars_of(")"));
            let mut next = slice_of(&out, 0, pos);
            append_chars(&mut next, &replacement);
            let tail = slice_of(&out, start + end + 1, out.len());
            append_chars(&mut next, &tail);
            let ghost old_out = out@;
            proof {
                assert(replacement@ =~= name@ + "(data, "@ + arg@ + ")"@);
                assert(next@ =~= old_out.subrange(0, pos as int) + replacement@ + old_out.subrange(
                    start + end + 1,
                    old_out.len() as int,
                ));
            }
            assert(next@.len() == pos + replacement@.len() + tail@.len());
            assert(pos + replacement.len() <= next.len());
            let nsf = pos + replacement.len();
            out = next;
            sf = nsf;
        }
    }
    out
}

/// Normalize playhead-oriented OTL syntax into vectorized series form.
pub fn normalize_for_series_eval(source: &str) -> (r: String)
    ensures
        r@ == spec_normalize_for_series_eval(source@),
{
    let src = chars_of(source);
    let t = trim_of(&src);
    if t.len() == 0 {
        return String::new();
    }
    let from1 = chars_of("(input,");
    let to1 = chars_of("(data,");
    let from2 = chars_of("(input ");
    let to2 = chars_of("(data ");
    proof {
        reveal_strlit("(input,");
        reveal_strlit("(input ");
    }
    let m1 = replace_of(&t, &from1, &to1);
    let mapped = replace_of(&m1, &from2, &to2);
    match expand_shorthand_of(&mapped) {
        Some(e) => string_of(&e),
        None => {
            let names: [&str; 14] = [
                "sma",
                "ema",
                "rsi",
                "wma",
                "stddev",
                "variance",
                "atr",
                "ta::sma",
                "ta::ema",
                "ta::rsi",
                "ta::wma",
                "ta::stddev",
                "ta::variance",
                "ta::atr",
            ];
            let mut out = mapped;
            let mut k: usize = 0;
            assert(names@.len() == 14);
            while k < 14
                invariant
                    k <= 14,
                    names@.len() == 14,
                    forall|j: int| 0 <= j < 14 ==> (#[trigger] names@[j])@ == unary_ta_names()[j],
                    normalize_unary_ta_calls(mapped@) == unary_all(out@, unary_ta_names(), k as int),
                decreases 14 - k,
            {
                let name = chars_of(names[k]);
                out = unary_pass_of(out, &name);
                k = k + 1;
            }
            string_of(&out)
        },
    }
}


// ---------------------------------------------------------------------------
// What the unary rewrite does to one call
// ---------------------------------------------------------------------------

proof fn lemma_find_from_exact(s: Seq<char>, pat: Seq<char>, i: int, k: int)
    requires
        0 <= i <= k,
        occurs_at(s, pat, k),
        forall|j: int| i <= j < k ==> !occurs_at(s, pat, j),
    ensures
        find_from(s, pat, i) == Some(k),
    decreases k - i,
{
    if i < k {
        lemma_find_from_exact(s, pat, i + 1, k);
    }
}

proof fn lemma_find_from_absent(s: Seq<char>, pat: Seq<char>, i: int)
    requires
        0 <= i,
        forall|j: int| i <= j ==> !occurs_at(s, pat, j),
    ensures
        find_from(s, pat, i) is None,
    decreases s.len() + 1 - i,
{
    if i + pat.len() <= s.len() {
        lemma_find_from_absent(s, pat, i + 1);
    }
}

/// `s` holds exactly one `(`, at `q`.
pub open spec fn single_open(s: Seq<char>, q: int) -> bool {
    &&& 0 <= q < s.len()
    &&& s[q] == '('
    &&& forall|j: int| 0 <= j < s.len() && j != q ==> #[trigger] s[j] != '('
}

pub open spec fn no_open(s: Seq<char>) -> bool {
    forall|j: int| 0 <= j < s.len() ==> #[trigger] s[j] != '('
}

/// With a single `(`, the call needle `m(` can only sit right before it.
proof fn lemma_needle_at_open(s: Seq<char>, m: Seq<char>, q: int, i: int)
    requires
        single_open(s, q),
        0 <= i,
    ensures
        (i <= q - m.len() && q - m.len() >= 0 && s.subrange(q - m.len(), q) == m) ==> find_from(
            s,
            m + seq!['('],
            i,
        ) == Some(q - m.len()),
        !(i <= q - m.len() && q - m.len() >= 0 && s.subrange(q - m.len(), q) == m) ==> find_from(
            s,
            m + seq!['('],
            i,
        ) is None,
{
    let needle = m + seq!['('];
    let j0 = q - m.len();
    assert forall|j: int| occurs_at(s, needle, j) implies j == j0 && s.subrange(j0, q) == m by {
        assert(s.subrange(j, j + needle.len())[m.len() as int] == needle[m.len() as int]);
        assert(s[j + m.len()] == '(');
        assert(s.subrange(j0, q) =~= s.subrange(j, j + needle.len()).subrange(0, m.len() as int));
        assert(needle.subrange(0, m.len() as int) =~= m);
    }
    if i <= j0 && j0 >= 0 && s.subrange(j0, q) == m {
        assert(s.subrange(j0, j0 + needle.len()) =~= needle);
        lemma_find_from_exact(s, needle, i, j0);
    } else {
        lemma_find_from_absent(s, needle, i);
    }
}

/// The `)` closing a call whose arguments hold no parentheses.
proof fn lemma_arg_end_plain(rest: Seq<char>, e: int, i: int)
    requires
        0 <= i <= e < rest.len(),
        rest[e] == ')',
        forall|j: int| i <= j < e ==> #[trigger] rest[j] != '(' && rest[j] != ')',
    ensures
        arg_end_scan(rest, i, 0) == Some(e),
    decreases e - i,
{
    if i < e {
        lemma_arg_end_plain(rest, e, i + 1);
    }
}

proof fn lemma_char_absent(s: Seq<char>, c: char)
    requires
        forall|j: int| 0 <= j < s.len() ==> #[trigger] s[j] != c,
    ensures
        !contains(s, seq![c]),
{
    assert forall|j: int| 0 <= j implies !occurs_at(s, seq![c], j) by {
        if occurs_at(s, seq![c], j) {
            assert(s.subrange(j, j + 1)[0] == seq![c][0]);
        }
    }
    lemma_find_from_absent(s, seq![c], 0);
}

/// A call before rewriting: `x(digits)s`.
pub open spec fn numeric_call(x: Seq<char>, digits: Seq<char>, s: Seq<char>) -> Seq<char> {
    x + seq!['('] + digits + seq![')'] + s
}

/// The same call with the data series first: `x(data, digits)s`.
pub open spec fn data_call(x: Seq<char>, digits: Seq<char>, s: Seq<char>) -> Seq<char> {
    x + "(data, "@ + digits + ")"@ + s
}

pub open spec fn call_parts_ok(x: Seq<char>, digits: Seq<char>, s: Seq<char>) -> bool {
    &&& no_open(x)
    &&& no_open(s)
    &&& digits.len() > 0
    &&& all_digits(digits)
}

proof fn lemma_call_shapes(x: Seq<char>, digits: Seq<char>, s: Seq<char>)
    requires
        call_parts_ok(x, digits, s),
    ensures
        single_open(numeric_call(x, digits, s), x.len() as int),
        single_open(data_call(x, digits, s), x.len() as int),
        numeric_call(x, digits, s).subrange(0, x.len() as int) == x,
        data_call(x, digits, s).subrange(0, x.len() as int) == x,
{
    reveal_strlit("(data, ");
    reveal_strlit(")");
    let a = numeric_call(x, digits, s);
    let b = data_call(x, digits, s);
    let q = x.len() as int;
    let n = digits.len() as int;
    assert forall|j: int| 0 <= j < a.len() && j != q implies #[trigger] a[j] != '(' by {
        if j < q {
            assert(a[j] == x[j]);
        } else if j <= q + n {
            assert(a[j] == digits[j - q - 1]);
        } else if j > q + n + 1 {
            assert(a[j] == s[j - q - n - 2]);
        }
    }
    assert forall|j: int| 0 <= j < b.len() && j != q implies #[trigger] b[j] != '(' by {
        if j < q {
            assert(b[j] == x[j]);
        } else if j < q + 7 {
        } else if j < q + 7 + n {
            assert(b[j] == digits[j - q - 7]);
        } else if j > q + 7 + n {
            assert(b[j] == s[j - q - n - 8]);
        }
    }
    assert(a.subrange(0, q) =~= x);
    assert(b.subrange(0, q) =~= x);
}

/// Once the call carries `data`, no pass changes it.
proof fn lemma_pass_keeps_data_call(x: Seq<char>, digits: Seq<char>, s: Seq<char>, m: Seq<char>, i: int)
    requires
        call_parts_ok(x, digits, s),
        0 <= i <= data_call(x, digits, s).len(),
    ensures
        unary_pass(data_call(x, digits, s), m, i) == data_call(x, digits, s),
    decreases data_call(x, digits, s).len() - i,
{
    reveal_strlit("(data, ");
    reveal_strlit(")");
    let b = data_call(x, digits, s);
    let q = x.len() as int;
    let n = digits.len() as int;
    lemma_call_shapes(x, digits, s);
    lemma_needle_at_open(b, m, q, i);
    let j0 = q - m.len();
    if i <= j0 && j0 >= 0 && b.subrange(j0, q) == m {
        let start = j0 + m.len() + 1;
        let rest = b.subrange(start, b.len() as int);
        reveal_strlit("data, ");
        assert(rest =~= "data, "@ + digits + ")"@ + s);
        assert forall|j: int| 0 <= j < 6 + n implies #[trigger] rest[j] != '(' && rest[j] != ')' by {
            if j >= 6 {
                assert(rest[j] == digits[j - 6]);
            }
        }
        lemma_arg_end_plain(rest, 6 + n, 0);
        let arg0 = rest.subrange(0, 6 + n);
        assert(arg0 =~= "data, "@ + digits);
        lemma_trim_of_tight(arg0);
        assert(occurs_at(arg0, seq![','], 4)) by {
            assert(arg0.subrange(4, 5) =~= seq![',']);
        }
        lemma_find_from_props(arg0, seq![','], 0);
        lemma_pass_keeps_data_call(x, digits, s, m, start);
    }
}

/// One pass over `x(digits)s`: the pass of a name that `x` ends with puts
/// `data` first; any other pass leaves the text as it is.
proof fn lemma_pass_on_numeric_call(x: Seq<char>, digits: Seq<char>, s: Seq<char>, m: Seq<char>)
    requires
        call_parts_ok(x, digits, s),
    ensures
        ends_with(x, m) ==> unary_pass(numeric_call(x, digits, s), m, 0) == data_call(x, digits, s),
        !ends_with(x, m) ==> unary_pass(numeric_call(x, digits, s), m, 0) == numeric_call(x, digits, s),
{
    reveal_strlit("(data, ");
    reveal_strlit(")");
    reveal_strlit("data");
    reveal_strlit("input");
    reveal_strlit("close");
    reveal_strlit("price");
    reveal_strlit("x");
    let a = numeric_call(x, digits, s);
    let q = x.len() as int;
    let n = digits.len() as int;
    lemma_call_shapes(x, digits, s);
    lemma_needle_at_open(a, m, q, 0);
    let j0 = q - m.len();
    if ends_with(x, m) {
        assert(a.subrange(j0, q) =~= x.subrange(j0, q));
        let start = q + 1;
        let rest = a.subrange(start, a.len() as int);
        assert(rest =~= digits + seq![')'] + s);
        assert forall|j: int| 0 <= j < n implies #[trigger] rest[j] != '(' && rest[j] != ')' by {
            assert(rest[j] == digits[j]);
        }
        lemma_arg_end_plain(rest, n, 0);
        assert(rest.subrange(0, n) =~= digits);
        assert(!is_ws(digits[0]) && !is_ws(digits[n - 1]));
        lemma_trim_of_tight(digits);
        lemma_char_absent(digits, ',');
        lemma_char_absent(digits, '(');
        assert(!is_series_keyword(digits)) by {
            assert(is_digit(digits[0]));
            assert("data"@[0] == 'd' && "input"@[0] == 'i' && "close"@[0] == 'c');
            assert("price"@[0] == 'p' && "x"@[0] == 'x');
        }
        let replacement = m + "(data, "@ + digits + ")"@;
        let s2 = a.subrange(0, j0) + replacement + a.subrange(start + n + 1, a.len() as int);
        assert(a.subrange(start + n + 1, a.len() as int) =~= s);
        assert(x.subrange(0, j0) + m =~= x) by {
            assert(x.subrange(j0, q) == m);
        }
        assert(a.subrange(0, j0) =~= x.subrange(0, j0));
        assert(s2 =~= data_call(x, digits, s));
        lemma_pass_keeps_data_call(x, digits, s, m, j0 + replacement.len());
    } else {
        if j0 >= 0 && a.subrange(j0, q) == m {
            assert(x.subrange(j0, q) =~= a.subrange(j0, q));
        }
    }
}

proof fn lemma_unary_all_on_call(x: Seq<char>, digits: Seq<char>, s: Seq<char>, names: Seq<Seq<char>>, k: int)
    requires
        call_parts_ok(x, digits, s),
        0 <= k <= names.len(),
    ensures
        unary_all(data_call(x, digits, s), names, k) == data_call(x, digits, s),
        (exists|j: int| k <= j < names.len() && ends_with(x, #[trigger] names[j])) ==> unary_all(
            numeric_call(x, digits, s),
            names,
            k,
        ) == data_call(x, digits, s),
    decreases names.len() - k,
{
    if k < names.len() {
        lemma_pass_keeps_data_call(x, digits, s, names[k], 0);
        lemma_pass_on_numeric_call(x, digits, s, names[k]);
        lemma_unary_all_on_call(x, digits, s, names, k + 1);
    }
}

/// A window-function call with one numeric argument, anywhere in a text with
/// no other `(`, gets the data series as its first argument; the text around
/// it is left as it was. The window functions are sma, ema, rsi, wma, stddev,
/// variance and atr, bare or as `ta::<name>`.
pub proof fn lemma_unary_window_call_gets_data(pre: Seq<char>, name: Seq<char>, digits: Seq<char>, post: Seq<char>)
    requires
        name == "sma"@ || name == "ema"@ || name == "rsi"@ || name == "wma"@ || name == "stddev"@ || name
            == "variance"@ || name == "atr"@ || name == "ta::sma"@ || name == "ta::ema"@ || name
            == "ta::rsi"@ || name == "ta::wma"@ || name == "ta::stddev"@ || name == "ta::variance"@
            || name == "ta::atr"@,
        no_open(pre),
        no_open(post),
        digits.len() > 0,
        all_digits(digits),
    ensures
        normalize_unary_ta_calls(pre + name + "("@ + digits + ")"@ + post) == pre + name + "(data, "@
            + digits + ")"@ + post,
{
    reveal_strlit("(");
    reveal_strlit(")");
    reveal_strlit("sma");
    reveal_strlit("ema");
    reveal_strlit("rsi");
    reveal_strlit("wma");
    reveal_strlit("stddev");
    reveal_strlit("variance");
    reveal_strlit("atr");
    reveal_strlit("ta::sma");
    reveal_strlit("ta::ema");
    reveal_strlit("ta::rsi");
    reveal_strlit("ta::wma");
    reveal_strlit("ta::stddev");
    reveal_strlit("ta::variance");
    reveal_strlit("ta::atr");
    let x = pre + name;
    assert forall|j: int| 0 <= j < x.len() implies #[trigger] x[j] != '(' by {
        if j >= pre.len() {
            assert(x[j] == name[j - pre.len()]);
        }
    }
    assert(x.subrange(x.len() - name.len(), x.len() as int) =~= name);
    let u = unary_ta_names();
    let k: int = if name == "sma"@ { 0 } else if name == "ema"@ { 1 } else if name == "rsi"@ { 2 } else if name
        == "wma"@ { 3 } else if name == "stddev"@ { 4 } else if name == "variance"@ { 5 } else if name
        == "atr"@ { 6 } else if name == "ta::sma"@ { 7 } else if name == "ta::ema"@ { 8 } else if name
        == "ta::rsi"@ { 9 } else if name == "ta::wma"@ { 10 } else if name == "ta::stddev"@ { 11 } else if name
        == "ta::variance"@ { 12 } else { 13 };
    assert(u[k] == name);
    assert(ends_with(x, u[k]));
    lemma_unary_all_on_call(x, digits, post, u, 0);
    assert(pre + name + "("@ + digits + ")"@ + post =~= numeric_call(x, digits, post));
    assert(pre + name + "(data, "@ + digits + ")"@ + post =~= data_call(x, digits, post));
}

/// With one `(`, followed by a digit, the text holds no `(input`.
proof fn lemma_no_input_arg(src: Seq<char>, q: int, pat: Seq<char>)
    requires
        single_open(src, q),
        q + 1 < src.len(),
        is_digit(src[q + 1]),
        pat.len() >= 2,
        pat[0] == '(',
        pat[1] == 'i',
    ensures
        find_from(src, pat, 0) is None,
{
    assert forall|j: int| 0 <= j implies !occurs_at(src, pat, j) by {
        if occurs_at(src, pat, j) {
            assert(src.subrange(j, j + pat.len())[0] == pat[0]);
            assert(src.subrange(j, j + pat.len())[1] == pat[1]);
            assert(src[j] == '(');
            assert(src[j + 1] == 'i');
        }
    }
    lemma_find_from_absent(src, pat, 0);
}

/// `normalize_for_series_eval` on a text whose only call is a window function
/// with one numeric argument, behind something other than a bare name (an
/// operator, say, as in `close - wma(10)`): the call gets the data series as
/// its first argument and the rest of the text is kept.
pub proof fn lemma_series_eval_inserts_data(pre: Seq<char>, name: Seq<char>, digits: Seq<char>, post: Seq<char>)
    requires
        name == "sma"@ || name == "ema"@ || name == "rsi"@ || name == "wma"@ || name == "stddev"@ || name
            == "variance"@ || name == "atr"@ || name == "ta::sma"@ || name == "ta::ema"@ || name
            == "ta::rsi"@ || name == "ta::wma"@ || name == "ta::stddev"@ || name == "ta::variance"@
            || name == "ta::atr"@,
        no_open(pre),
        no_open(post),
        digits.len() > 0,
        all_digits(digits),
        pre.len() > 0 && !is_ws(pre[0]),
        post.len() == 0 || !is_ws(post[post.len() - 1]),
        exists|i: int| 0 <= i < pre.len() && !is_ws(#[trigger] pre[i]) && !is_ta_name_char(pre[i]),
    ensures
        spec_normalize_for_series_eval(pre + name + "("@ + digits + ")"@ + post) == pre + name
            + "(data, "@ + digits + ")"@ + post,
{
    reveal_strlit("(");
    reveal_strlit(")");
    reveal_strlit("(input,");
    reveal_strlit("(input ");
    reveal_strlit("(data,");
    reveal_strlit("(data ");
    reveal_strlit("sma");
    reveal_strlit("ema");
    reveal_strlit("rsi");
    reveal_strlit("wma");
    reveal_strlit("stddev");
    reveal_strlit("variance");
    reveal_strlit("atr");
    reveal_strlit("ta::sma");
    reveal_strlit("ta::ema");
    reveal_strlit("ta::rsi");
    reveal_strlit("ta::wma");
    reveal_strlit("ta::stddev");
    reveal_strlit("ta::variance");
    reveal_strlit("ta::atr");
    lemma_unary_window_call_gets_data(pre, name, digits, post);
    let x = pre + name;
    assert forall|j: int| 0 <= j < x.len() implies #[trigger] x[j] != '(' by {
        if j >= pre.len() {
            assert(x[j] == name[j - pre.len()]);
        }
    }
    let src = pre + name + "("@ + digits + ")"@ + post;
    assert(src =~= numeric_call(x, digits, post));
    lemma_call_shapes(x, digits, post);
    let q = x.len() as int;
    // No whitespace at either end.
    assert(src[0] == pre[0]);
    if post.len() == 0 {
        assert(src[src.len() - 1] == ')');
    } else {
        assert(src[src.len() - 1] == post[post.len() - 1]);
    }
    lemma_trim_of_tight(src);
    // No `(input` to map.
    assert(src[q + 1] == digits[0]);
    lemma_no_input_arg(src, q, "(input,"@);
    assert(src.subrange(0, src.len() as int) =~= src);
    assert(replace(src, "(input,"@, "(data,"@) == src);
    lemma_no_input_arg(src, q, "(input "@);
    assert(replace(src, "(input "@, "(data "@) == src);
    // Not a bare shorthand call: the text before `(` is no name.
    lemma_needle_at_open(src, Seq::<char>::empty(), q, 0);
    assert(Seq::<char>::empty() + seq!['('] =~= seq!['(']);
    assert(src.subrange(q, q) =~= Seq::<char>::empty());
    assert(find(src, seq!['(']) == Some(q));
    assert(src.subrange(0, q) =~= x);
    let c = choose|i: int| 0 <= i < pre.len() && !is_ws(#[trigger] pre[i]) && !is_ta_name_char(pre[i]);
    assert(x[c] == pre[c]);
    lemma_skip_ws_bounds(x, 0);
    let a = skip_ws_from(x, 0);
    assert(a <= c);
    let y = x.subrange(a, x.len() as int);
    lemma_back_ws_bounds(y, y.len() as int);
    let b = back_ws_from(y, y.len() as int);
    assert(y[c - a] == x[c]);
    assert(c - a < b);
    let nm = trim(x);
    assert(nm =~= y.subrange(0, b));
    assert(nm[c - a] == x[c]);
    assert(!all_ta_name(nm));
    assert(expand_shorthand(src) is None);
}

// ---------------------------------------------------------------------------
// Resolving a node's script
// ---------------------------------------------------------------------------

/// Inputs required to resolve the canonical `inputs:script_src` string for an OTL node.
#[derive(Clone, Debug, Default)]
pub struct OtlScriptContext<'a> {
    pub dsl_formula: Option<&'a str>,
    pub node_script: Option<&'a str>,
    /// Legacy indicator id (hydrate compat); ignored when `uber_config` is set.
    pub indicator_id: Option<&'a str>,
    pub lookback_period: u32,
    pub uber_config: Option<&'a TaUberSignalConfig>,
}

/// `Some(trim(s))` when that is not empty.
pub open spec fn nonblank(s: Option<Seq<char>>) -> Option<Seq<char>> {
    match s {
        Some(t) => if trim(t).len() > 0 {
            Some(trim(t))
        } else {
            None
        },
        None => None,
    }
}

pub open spec fn opt_str(s: Option<&str>) -> Option<Seq<char>> {
    match s {
        Some(t) => Some(t@),
        None => None,
    }
}

/// The DSL formula, else the node script, else the composed Uber script,
/// else the legacy `{indicator}(period={n})` shorthand (`rsi` by default).
pub open spec fn spec_resolve_script(
    dsl: Option<Seq<char>>,
    node: Option<Seq<char>>,
    indicator: Option<Seq<char>>,
    lookback: u32,
    uber: Option<TaConfigModel>,
) -> Seq<char> {
    match nonblank(dsl) {
        Some(f) => f,
        None => match nonblank(node) {
            Some(n) => n,
            None => match uber {
                Some(c) => spec_compose_script(c),
                None => (match indicator {
                    Some(i) => i,
                    None => "rsi"@,
                }) + "(period="@ + decimal(lookback as nat) + ")"@,
            },
        },
    }
}

fn nonblank_of(s: Option<&str>) -> (r: Option<Vec<char>>)
    ensures
        r matches Some(v) ==> nonblank(opt_str(s)) == Some(v@),
        r is None ==> nonblank(opt_str(s)) is None,
{
    match s {
        Some(t) => {
            let v = trim_of(&chars_of(t));
            if v.len() > 0 {
                Some(v)
            } else {
                None
            }
        },
        None => None,
    }
}

/// Resolve the authoritative OTL source string (DSL > node script > uber compose > legacy shorthand).
pub fn resolve_otl_script_src(ctx: &OtlScriptContext<'_>) -> (r: String)
    ensures
        r@ == spec_resolve_script(
            opt_str(ctx.dsl_formula),
            opt_str(ctx.node_script),
            opt_str(ctx.indicator_id),
            ctx.lookback_period,
            match ctx.uber_config {
                Some(c) => Some(c@),
                None => None,
            },
        ),
{
    if let Some(f) = nonblank_of(ctx.dsl_formula) {
        return string_of(&f);
    }
    if let Some(n) = nonblank_of(ctx.node_script) {
        return string_of(&n);
    }
    if let Some(config) = ctx.uber_config {
        return compose_uber_script_src(config);
    }
    let mut out = match ctx.indicator_id {
        Some(i) => chars_of(i),
        None => chars_of("rsi"),
    };
    append_chars(&mut out, &chars_of("(period="));
    append_chars(&mut out, &decimal_of(ctx.lookback_period as usize));
    append_chars(&mut out, &chars_of(")"));
    string_of(&out)
}

} // verus!
