//! Which functions an OTL expression may call, and with how many arguments.
//!
//! Compiling a call first settles its shape: an unknown name is refused, and a
//! known one must be given exactly its number of arguments. Only then are the
//! arguments compiled.

use crate::ast::CompileError;
use crate::text::{chars_of, seq_eq, slice_of, starts_with, starts_with_chars, string_of};
use crate::series_resolve::unary_ta_names;
use crate::ta_uber::TaArchetype;
use vstd::prelude::*;

verus! {

/// Number of arguments a single-series function takes, by the name written in
/// the expression (`None` for a name that is not a function).
pub open spec fn spec_call_arity(name: Seq<char>) -> Option<nat> {
    if name == "sma"@ || name == "ta::sma"@ || name == "ema"@ || name == "ta::ema"@ || name == "ta_ema"@
        || name == "rsi"@ || name == "ta::rsi"@ || name == "wma"@ || name == "ta::wma"@ || name
        == "stddev"@ || name == "ta::stddev"@ || name == "ta_stddev"@ || name == "variance"@ || name
        == "ta::variance"@ || name == "atr"@ || name == "ta::atr"@ || name == "tema"@ || name
        == "ta::tema"@ || name == "hma"@ || name == "ta::hma"@ || name == "cross"@ || name
        == "ta::cross"@ || name == "step"@ {
        Some(2)
    } else if name == "macd"@ || name == "ta::macd"@ || name == "ta::historical_volatility"@ || name
        == "historical_volatility"@ || name == "clamp"@ || name == "mix"@ {
        Some(3)
    } else if name == "identity"@ {
        Some(0)
    } else {
        None
    }
}

/// `name` without one leading `ta::`.
pub open spec fn without_ta_prefix(name: Seq<char>) -> Seq<char> {
    if starts_with(name, "ta::"@) {
        name.subrange(4, name.len() as int)
    } else {
        name
    }
}

/// Number of arguments a multi-output function takes, by its name with one
/// leading `ta::` dropped.
pub open spec fn spec_multi_call_arity(key: Seq<char>) -> Option<nat> {
    if key == "bollinger_bands"@ || key == "keltner_channels"@ || key == "macd"@ || key == "stochastic"@ {
        Some(3)
    } else if key == "donchian_channels"@ {
        Some(2)
    } else {
        None
    }
}

fn is_name(n: &[char], lit: &str) -> (r: bool)
    ensures
        r == (n@ == lit@),
{
    seq_eq(n, &chars_of(lit))
}

/// Argument count of the single-series function `name`.
pub fn call_arity(name: &str) -> (r: Option<usize>)
    ensures
        r matches Some(k) ==> spec_call_arity(name@) == Some(k as nat),
        r is None ==> spec_call_arity(name@) is None,
{
    let n = chars_of(name);
    if is_name(&n, "sma") || is_name(&n, "ta::sma") || is_name(&n, "ema") || is_name(&n, "ta::ema")
        || is_name(&n, "ta_ema") || is_name(&n, "rsi") || is_name(&n, "ta::rsi") || is_name(&n, "wma")
        || is_name(&n, "ta::wma") || is_name(&n, "stddev") || is_name(&n, "ta::stddev") || is_name(
        &n,
        "ta_stddev",
    ) || is_name(&n, "variance") || is_name(&n, "ta::variance") || is_name(&n, "atr") || is_name(
        &n,
        "ta::atr",
    ) || is_name(&n, "tema") || is_name(&n, "ta::tema") || is_name(&n, "hma") || is_name(
        &n,
        "ta::hma",
    ) || is_name(&n, "cross") || is_name(&n, "ta::cross") || is_name(&n, "step") {
        Some(2)
    } else if is_name(&n, "macd") || is_name(&n, "ta::macd") || is_name(&n, "ta::historical_volatility")
        || is_name(&n, "historical_volatility") || is_name(&n, "clamp") || is_name(&n, "mix") {
        Some(3)
    } else if is_name(&n, "identity") {
        Some(0)
    } else {
        None
    }
}

fn strip_ta_prefix(name: &str) -> (r: Vec<char>)
    ensures
        r@ == without_ta_prefix(name@),
{
    let n = chars_of(name);
    let p = chars_of("ta::");
    proof {
        reveal_strlit("ta::");
    }
    if starts_with_chars(&n, &p) {
        slice_of(&n, 4, n.len())
    } else {
        n
    }
}

/// Argument count of the multi-output function `name` (one leading `ta::`
/// ignored).
pub fn multi_call_arity(name: &str) -> (r: Option<usize>)
    ensures
        r matches Some(k) ==> spec_multi_call_arity(without_ta_prefix(name@)) == Some(k as nat),
        r is None ==> spec_multi_call_arity(without_ta_prefix(name@)) is None,
{
    let key = strip_ta_prefix(name);
    if is_name(&key, "bollinger_bands") || is_name(&key, "keltner_channels") || is_name(&key, "macd")
        || is_name(&key, "stochastic") {
        Some(3)
    } else if is_name(&key, "donchian_channels") {
        Some(2)
    } else {
        None
    }
}

/// The shape check of a single-series call: `Ok` with the arity when `name`
/// is known and takes `got` arguments; `UnknownFunction(name)` for an unknown
/// name; `InvalidArgumentCount` with the name, the arity and `got` otherwise.
pub fn check_call_shape(name: &str, got: usize) -> (r: Result<usize, CompileError>)
    ensures
        match spec_call_arity(name@) {
            None => r matches Err(CompileError::UnknownFunction(s)) && s@ == name@,
            Some(k) => if k == got {
                r == Ok::<usize, CompileError>(got)
            } else {
                r matches Err(CompileError::InvalidArgumentCount { name: s, expected, got: g }) && s@
                    == name@ && expected == k && g == got
            },
        },
{
    match call_arity(name) {
        None => Err(CompileError::UnknownFunction(string_of(&chars_of(name)))),
        Some(k) => if k == got {
            Ok(got)
        } else {
            Err(CompileError::InvalidArgumentCount { name: string_of(&chars_of(name)), expected: k, got })
        },
    }
}

/// The shape check of a multi-output call: `Ok` with the arity when the name
/// (one leading `ta::` dropped) is known and takes `got` arguments;
/// `UnknownFunction` with that shortened name for an unknown one;
/// `InvalidArgumentCount` with the name as written otherwise.
pub fn check_multi_call_shape(name: &str, got: usize) -> (r: Result<usize, CompileError>)
    ensures
        match spec_multi_call_arity(without_ta_prefix(name@)) {
            None => r matches Err(CompileError::UnknownFunction(s)) && s@ == without_ta_prefix(name@),
            Some(k) => if k == got {
                r == Ok::<usize, CompileError>(got)
            } else {
                r matches Err(CompileError::InvalidArgumentCount { name: s, expected, got: g }) && s@
                    == name@ && expected == k && g == got
            },
        },
{
    match multi_call_arity(name) {
        None => Err(CompileError::UnknownFunction(string_of(&strip_ta_prefix(name)))),
        Some(k) => if k == got {
            Ok(got)
        } else {
            Err(CompileError::InvalidArgumentCount { name: string_of(&chars_of(name)), expected: k, got })
        },
    }
}

/// Every call that series normalization writes as `name(data, N)` compiles as
/// a two-argument call: each window function it rewrites (and its `ta::` form)
/// takes exactly a series and a period.
pub proof fn lemma_rewritten_window_calls_take_two()
    ensures
        forall|k: int| 0 <= k < unary_ta_names().len() ==> spec_call_arity(#[trigger] unary_ta_names()[k]) == Some(2nat),
{
    let u = unary_ta_names();
    assert forall|k: int| 0 <= k < u.len() implies spec_call_arity(#[trigger] u[k]) == Some(2nat) by {
        if k == 0 {
        } else if k == 1 {
        } else if k == 2 {
        } else if k == 3 {
        } else if k == 4 {
        } else if k == 5 {
        } else if k == 6 {
        } else if k == 7 {
        } else if k == 8 {
        } else if k == 9 {
        } else if k == 10 {
        } else if k == 11 {
        } else if k == 12 {
        } else {
        }
    }
}

/// Every moving average of the trend archetype, bare or as `ta::<name>`, is
/// called with a series and a period.
pub proof fn lemma_trend_algorithms_take_two(i: int)
    requires
        0 <= i < TaArchetype::Trend.spec_algorithms().len(),
    ensures
        spec_call_arity(TaArchetype::Trend.spec_algorithms()[i]) == Some(2nat),
        spec_call_arity("ta::"@ + TaArchetype::Trend.spec_algorithms()[i]) == Some(2nat),
{
    reveal_strlit("ta::");
    reveal_strlit("sma");
    reveal_strlit("ema");
    reveal_strlit("wma");
    reveal_strlit("hma");
    reveal_strlit("tema");
    reveal_strlit("ta::sma");
    reveal_strlit("ta::ema");
    reveal_strlit("ta::wma");
    reveal_strlit("ta::hma");
    reveal_strlit("ta::tema");
    let a = TaArchetype::Trend.spec_algorithms();
    assert("ta::"@ + a[0] =~= "ta::sma"@);
    assert("ta::"@ + a[1] =~= "ta::ema"@);
    assert("ta::"@ + a[2] =~= "ta::wma"@);
    assert("ta::"@ + a[3] =~= "ta::hma"@);
    assert("ta::"@ + a[4] =~= "ta::tema"@);
}

} // verus!
