//! Name recognition for geometric-algebra functions inside OTL expressions.

use crate::ga_registry::{GaInputKind, lemma_registry_ids_distinct, spec_indicators};
use crate::text::{chars_of, seq_eq, starts_with, starts_with_chars, slice_of};
use vstd::prelude::*;

verus! {

/// `name` without a leading `ga::` namespace.
pub open spec fn without_ga_prefix(name: Seq<char>) -> Seq<char> {
    if starts_with(name, "ga::"@) {
        name.subrange(4, name.len() as int)
    } else {
        name
    }
}

pub open spec fn spec_is_ga_function(name: Seq<char>) -> bool {
    let n = without_ga_prefix(name);
    ||| n == "wedge_volume"@
    ||| n == "scalar_beta"@
    ||| n == "bivector_beta"@
    ||| n == "orientation"@
    ||| n == "displacement"@
    ||| n == "rolling_quantile"@
    ||| n == "nnls_weights"@
    ||| n == "month_end"@
}

fn strip_ga_prefix(name: &str) -> (r: Vec<char>)
    ensures
        r@ == without_ga_prefix(name@),
{
    let n = chars_of(name);
    let p = chars_of("ga::");
    proof {
        reveal_strlit("ga::");
    }
    if starts_with_chars(&n, &p) {
        slice_of(&n, 4, n.len())
    } else {
        n
    }
}

fn is_name(n: &[char], lit: &str) -> (r: bool)
    ensures
        r == (n@ == lit@),
{
    seq_eq(n, &chars_of(lit))
}

/// Single-series GA operators (optionally written with `ga::`).
pub fn is_ga_function(name: &str) -> (r: bool)
    ensures
        r == spec_is_ga_function(name@),
{
    let n = strip_ga_prefix(name);
    is_name(&n, "wedge_volume") || is_name(&n, "scalar_beta") || is_name(&n, "bivector_beta")
        || is_name(&n, "orientation") || is_name(&n, "displacement") || is_name(
        &n,
        "rolling_quantile",
    ) || is_name(&n, "nnls_weights") || is_name(&n, "month_end")
}

/// Output channels of multi-output GA operators.
pub fn ga_multi_outputs(name: &str) -> (r: Option<&'static [&'static str]>)
    ensures
        without_ga_prefix(name@) == "geometric_beta"@ ==> (r matches Some(v) && v@.len() == 2
            && v@[0]@ == "scalar"@ && v@[1]@ == "bivector"@),
        without_ga_prefix(name@) != "geometric_beta"@ ==> r is None,
{
    let n = strip_ga_prefix(name);
    if is_name(&n, "geometric_beta") {
        let v: &'static [&'static str] = &["scalar", "bivector"];
        Some(v)
    } else {
        None
    }
}

/// The output channels named for `geometric_beta` are the ids of that
/// registry entry's outputs, in order, and no other entry carries that id.
pub proof fn lemma_multi_outputs_match_registry()
    ensures
        spec_indicators()[3].id == "geometric_beta"@,
        spec_indicators()[3].outputs.len() == 2,
        spec_indicators()[3].outputs[0].0 == "scalar"@,
        spec_indicators()[3].outputs[1].0 == "bivector"@,
        forall|i: int|
            0 <= i < spec_indicators().len() && #[trigger] spec_indicators()[i].id == "geometric_beta"@ ==> i == 3,
{
    lemma_registry_ids_distinct();
    assert forall|i: int|
        0 <= i < spec_indicators().len() && #[trigger] spec_indicators()[i].id == "geometric_beta"@ implies i == 3 by {
        if i < 3 {
            assert(spec_indicators()[i].id != spec_indicators()[3].id);
        } else if i > 3 {
            assert(spec_indicators()[3].id != spec_indicators()[i].id);
        }
    }
}

/// Every single-series GA name, with or without `ga::`, is the id of a
/// registry entry.
pub proof fn lemma_ga_functions_are_registered(name: Seq<char>)
    requires
        spec_is_ga_function(name),
    ensures
        exists|i: int| 0 <= i < spec_indicators().len() && #[trigger] spec_indicators()[i].id == without_ga_prefix(name),
{
    let n = without_ga_prefix(name);
    let s = spec_indicators();
    if n == "wedge_volume"@ {
        assert(s[0].id == n);
    } else if n == "scalar_beta"@ {
        assert(s[1].id == n);
    } else if n == "bivector_beta"@ {
        assert(s[2].id == n);
    } else if n == "orientation"@ {
        assert(s[4].id == n);
    } else if n == "displacement"@ {
        assert(s[5].id == n);
    } else if n == "rolling_quantile"@ {
        assert(s[6].id == n);
    } else if n == "nnls_weights"@ {
        assert(s[7].id == n);
    } else {
        assert(s[8].id == n);
    }
}

/// The input layout an indicator is handed: the constituent columns for
/// `wedge_volume`, the asset with the market for the betas, the market with
/// the constituents for `nnls_weights`, else the primary series alone.
pub open spec fn spec_data_layout(indicator_id: Seq<char>) -> GaInputKind {
    if indicator_id == "wedge_volume"@ {
        GaInputKind::ConstituentMatrix
    } else if indicator_id == "scalar_beta"@ || indicator_id == "bivector_beta"@ || indicator_id
        == "geometric_beta"@ {
        GaInputKind::DualSlice
    } else if indicator_id == "nnls_weights"@ {
        GaInputKind::DualWithMatrix
    } else {
        GaInputKind::Slice
    }
}

/// Which input layout the series of `indicator_id` are gathered in.
pub fn ga_data_layout(indicator_id: &str) -> (r: GaInputKind)
    ensures
        r == spec_data_layout(indicator_id@),
{
    let n = chars_of(indicator_id);
    if is_name(&n, "wedge_volume") {
        GaInputKind::ConstituentMatrix
    } else if is_name(&n, "scalar_beta") || is_name(&n, "bivector_beta") || is_name(&n, "geometric_beta") {
        GaInputKind::DualSlice
    } else if is_name(&n, "nnls_weights") {
        GaInputKind::DualWithMatrix
    } else {
        GaInputKind::Slice
    }
}

/// The layout each registered indicator is gathered in is the input kind the
/// registry lists for it: every entry gets exactly the series it is computed on.
pub proof fn lemma_data_layout_matches_registry()
    ensures
        forall|i: int|
            0 <= i < spec_indicators().len() ==> spec_data_layout(#[trigger] spec_indicators()[i].id)
                == spec_indicators()[i].input_kind,
{
    lemma_registry_ids_distinct();
    let s = spec_indicators();
    assert(s[0].id != s[1].id && s[0].id != s[2].id && s[0].id != s[3].id && s[0].id != s[7].id);
    assert(s[1].id != s[7].id && s[2].id != s[7].id && s[3].id != s[7].id);
    assert(s[4].id != s[0].id && s[4].id != s[1].id && s[4].id != s[2].id && s[4].id != s[3].id && s[4].id != s[7].id);
    assert(s[5].id != s[0].id && s[5].id != s[1].id && s[5].id != s[2].id && s[5].id != s[3].id && s[5].id != s[7].id);
    assert(s[6].id != s[0].id && s[6].id != s[1].id && s[6].id != s[2].id && s[6].id != s[3].id && s[6].id != s[7].id);
    assert(s[8].id != s[0].id && s[8].id != s[1].id && s[8].id != s[2].id && s[8].id != s[3].id && s[8].id != s[7].id);
    assert(s[1].id != s[0].id && s[2].id != s[0].id && s[3].id != s[0].id);
    assert forall|i: int| 0 <= i < s.len() implies spec_data_layout(#[trigger] s[i].id) == s[i].input_kind by {
        if i == 0 {
        } else if i == 1 {
        } else if i == 2 {
        } else if i == 3 {
        } else if i == 4 {
        } else if i == 5 {
        } else if i == 6 {
        } else if i == 7 {
        } else {
        }
    }
}

} // verus!
