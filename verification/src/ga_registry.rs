//! Static registry of geometric-algebra indicators.

use crate::text::{chars_of, parse_usize, parse_usize_of, seq_eq, slice_of, starts_with, starts_with_chars};
use vstd::prelude::*;

verus! {

#[derive(Clone, Copy, Debug, PartialEq, Eq, Structural)]
pub enum GaInputKind {
    Slice,
    DualSlice,
    ConstituentMatrix,
    DualWithMatrix,
}

#[derive(Clone, Copy, Debug, PartialEq, Eq, Structural)]
pub enum GaValueType {
    F64,
    Bool,
}

#[derive(Clone, Copy, Debug, PartialEq, Eq)]
pub struct GaOutputInfo {
    pub id: &'static str,
    pub label: &'static str,
    pub value_type: GaValueType,
}

#[derive(Clone, Copy, Debug, PartialEq, Eq)]
pub struct GaParamInfo {
    pub key: &'static str,
    pub default_int: i64,
}

#[derive(Clone, Copy, Debug, PartialEq, Eq)]
pub struct GaIndicatorInfo {
    pub id: &'static str,
    pub label: &'static str,
    pub category: &'static str,
    pub input_kind: GaInputKind,
    pub params: &'static [GaParamInfo],
    pub outputs: &'static [GaOutputInfo],
}

#[derive(Debug, Clone, PartialEq)]
pub enum GaComputeError {
    UnknownIndicator(String),
    UnknownOutput { output_id: String, indicator_id: String },
    InputKindMismatch(String),
    LengthMismatch,
    InvalidParam(String),
    Failed(String),
}

/// Texts and values of one registry entry.
#[verifier::ext_equal]
pub struct IndicatorModel {
    pub id: Seq<char>,
    pub label: Seq<char>,
    pub category: Seq<char>,
    pub input_kind: GaInputKind,
    pub params: Seq<(Seq<char>, i64)>,
    pub outputs: Seq<(Seq<char>, Seq<char>, GaValueType)>,
}

impl View for GaIndicatorInfo {
    type V = IndicatorModel;

    open spec fn view(&self) -> IndicatorModel {
        IndicatorModel {
            id: self.id@,
            label: self.label@,
            category: self.category@,
            input_kind: self.input_kind,
            params: Seq::new(self.params@.len(), |i: int| (self.params@[i].key@, self.params@[i].default_int)),
            outputs: Seq::new(
                self.outputs@.len(),
                |i: int| (self.outputs@[i].id@, self.outputs@[i].label@, self.outputs@[i].value_type),
            ),
        }
    }
}

pub open spec fn period_param() -> Seq<(Seq<char>, i64)> {
    seq![("period"@, 60i64)]
}

pub open spec fn out1(id: Seq<char>, label: Seq<char>, t: GaValueType) -> Seq<(Seq<char>, Seq<char>, GaValueType)> {
    seq![(id, label, t)]
}

pub open spec fn entry(
    id: Seq<char>,
    label: Seq<char>,
    category: Seq<char>,
    input_kind: GaInputKind,
    params: Seq<(Seq<char>, i64)>,
    outputs: Seq<(Seq<char>, Seq<char>, GaValueType)>,
) -> IndicatorModel {
    IndicatorModel { id, label, category, input_kind, params, outputs }
}

/// The registry, in listing order.
pub open spec fn spec_indicators() -> Seq<IndicatorModel> {
    seq![
        entry("wedge_volume"@, "Wedge Volume"@, "regime"@, GaInputKind::ConstituentMatrix, period_param(), out1("volume"@, "Wedge Volume"@, GaValueType::F64)),
        entry("scalar_beta"@, "Scalar Beta"@, "selection"@, GaInputKind::DualSlice, period_param(), out1("scalar"@, "Scalar Beta"@, GaValueType::F64)),
        entry("bivector_beta"@, "Bivector Beta"@, "selection"@, GaInputKind::DualSlice, period_param(), out1("bivector"@, "Bivector Beta"@, GaValueType::F64)),
        entry("geometric_beta"@, "Geometric Beta"@, "selection"@, GaInputKind::DualSlice, period_param(), seq![("scalar"@, "Scalar Beta"@, GaValueType::F64), ("bivector"@, "Bivector Beta"@, GaValueType::F64)]),
        entry("orientation"@, "Bivector Orientation"@, "safety"@, GaInputKind::Slice, period_param(), out1("oriented"@, "Oriented"@, GaValueType::Bool)),
        entry("displacement"@, "Displacement"@, "safety"@, GaInputKind::Slice, period_param(), out1("value"@, "Value"@, GaValueType::F64)),
        entry("rolling_quantile"@, "Rolling Quantile"@, "statistics"@, GaInputKind::Slice, seq![("period"@, 252i64), ("q"@, 0i64)], out1("value"@, "Value"@, GaValueType::F64)),
        entry("nnls_weights"@, "NNLS Weights"@, "gravity"@, GaInputKind::DualWithMatrix, period_param(), out1("value"@, "Value"@, GaValueType::F64)),
        entry("month_end"@, "Month End Flag"@, "calendar"@, GaInputKind::Slice, seq![], out1("oriented"@, "Oriented"@, GaValueType::Bool)),
    ]
}

pub open spec fn indicator_views(v: Seq<GaIndicatorInfo>) -> Seq<IndicatorModel> {
    Seq::new(v.len(), |i: int| v[i]@)
}

/// All registered indicators.
pub fn list_indicators() -> (r: &'static [GaIndicatorInfo])
    ensures
        indicator_views(r@) =~~= spec_indicators(),
{
    let r: &'static [GaIndicatorInfo] = &[
        GaIndicatorInfo { id: "wedge_volume", label: "Wedge Volume", category: "regime", input_kind: GaInputKind::ConstituentMatrix, params: &[GaParamInfo { key: "period", default_int: 60 }], outputs: &[GaOutputInfo { id: "volume", label: "Wedge Volume", value_type: GaValueType::F64 }] },
        GaIndicatorInfo { id: "scalar_beta", label: "Scalar Beta", category: "selection", input_kind: GaInputKind::DualSlice, params: &[GaParamInfo { key: "period", default_int: 60 }], outputs: &[GaOutputInfo { id: "scalar", label: "Scalar Beta", value_type: GaValueType::F64 }] },
        GaIndicatorInfo { id: "bivector_beta", label: "Bivector Beta", category: "selection", input_kind: GaInputKind::DualSlice, params: &[GaParamInfo { key: "period", default_int: 60 }], outputs: &[GaOutputInfo { id: "bivector", label: "Bivector Beta", value_type: GaValueType::F64 }] },
        GaIndicatorInfo { id: "geometric_beta", label: "Geometric Beta", category: "selection", input_kind: GaInputKind::DualSlice, params: &[GaParamInfo { key: "period", default_int: 60 }], outputs: &[GaOutputInfo { id: "scalar", label: "Scalar Beta", value_type: GaValueType::F64 }, GaOutputInfo { id: "bivector", label: "Bivector Beta", value_type: GaValueType::F64 }] },
        GaIndicatorInfo { id: "orientation", label: "Bivector Orientation", category: "safety", input_kind: GaInputKind::Slice, params: &[GaParamInfo { key: "period", default_int: 60 }], outputs: &[GaOutputInfo { id: "oriented", label: "Oriented", value_type: GaValueType::Bool }] },
        GaIndicatorInfo { id: "displacement", label: "Displacement", category: "safety", input_kind: GaInputKind::Slice, params: &[GaParamInfo { key: "period", default_int: 60 }], outputs: &[GaOutputInfo { id: "value", label: "Value", value_type: GaValueType::F64 }] },
        GaIndicatorInfo { id: "rolling_quantile", label: "Rolling Quantile", category: "statistics", input_kind: GaInputKind::Slice, params: &[GaParamInfo { key: "period", default_int: 252 }, GaParamInfo { key: "q", default_int: 0 }], outputs: &[GaOutputInfo { id: "value", label: "Value", value_type: GaValueType::F64 }] },
        GaIndicatorInfo { id: "nnls_weights", label: "NNLS Weights", category: "gravity", input_kind: GaInputKind::DualWithMatrix, params: &[GaParamInfo { key: "period", default_int: 60 }], outputs: &[GaOutputInfo { id: "value", label: "Value", value_type: GaValueType::F64 }] },
        GaIndicatorInfo { id: "month_end", label: "Month End Flag", category: "calendar", input_kind: GaInputKind::Slice, params: &[], outputs: &[GaOutputInfo { id: "oriented", label: "Oriented", value_type: GaValueType::Bool }] },
    ];
    assert(r@.len() == 9);
    assert(indicator_views(r@)[0] =~~= spec_indicators()[0]);
    assert(indicator_views(r@)[1] =~~= spec_indicators()[1]);
    assert(indicator_views(r@)[2] =~~= spec_indicators()[2]);
    assert(indicator_views(r@)[3] =~~= spec_indicators()[3]);
    assert(indicator_views(r@)[4] =~~= spec_indicators()[4]);
    assert(indicator_views(r@)[5] =~~= spec_indicators()[5]);
    assert(indicator_views(r@)[6] =~~= spec_indicators()[6]);
    assert(indicator_views(r@)[7] =~~= spec_indicators()[7]);
    assert(indicator_views(r@)[8] =~~= spec_indicators()[8]);
    r
}

pub fn get_indicator(id: &str) -> (r: Option<&'static GaIndicatorInfo>)
    ensures
        r matches Some(info) ==> info.id@ == id@ && exists|i: int|
            0 <= i < spec_indicators().len() && info@ =~~= #[trigger] spec_indicators()[i]
                && forall|j: int| 0 <= j < i ==> #[trigger] spec_indicators()[j].id != id@,
        r is None ==> forall|i: int| 0 <= i < spec_indicators().len() ==> #[trigger] spec_indicators()[i].id != id@,
{
    let all = list_indicators();
    let key = chars_of(id);
    let mut i: usize = 0;
    while i < all.len()
        invariant
            i <= all@.len(),
            key@ == id@,
            indicator_views(all@) =~~= spec_indicators(),
            forall|j: int| 0 <= j < i ==> #[trigger] spec_indicators()[j].id != id@,
        decreases all.len() - i,
    {
        let cand = chars_of(all[i].id);
        if seq_eq(&cand, &key) {
            assert(indicator_views(all@)[i as int] == all@[i as int]@);
            return Some(&all[i]);
        }
        assert(indicator_views(all@)[i as int] == all@[i as int]@);
        i = i + 1;
    }
    None
}

/// No two registry entries share an id, so a lookup by id names exactly one
/// entry: the one `get_indicator` returns.
pub proof fn lemma_registry_ids_distinct()
    ensures
        forall|i: int, j: int|
            0 <= i < j < spec_indicators().len() ==> #[trigger] spec_indicators()[i].id != #[trigger] spec_indicators()[j].id,
{
    reveal_strlit("wedge_volume");
    reveal_strlit("scalar_beta");
    reveal_strlit("bivector_beta");
    reveal_strlit("geometric_beta");
    reveal_strlit("orientation");
    reveal_strlit("displacement");
    reveal_strlit("rolling_quantile");
    reveal_strlit("nnls_weights");
    reveal_strlit("month_end");
    let s = spec_indicators();
    assert forall|i: int, j: int| 0 <= i < j < s.len() implies s[i].id[0] != s[j].id[0] by {
        assert(s[0].id[0] == 'w');
        assert(s[1].id[0] == 's');
        assert(s[2].id[0] == 'b');
        assert(s[3].id[0] == 'g');
        assert(s[4].id[0] == 'o');
        assert(s[5].id[0] == 'd');
        assert(s[6].id[0] == 'r');
        assert(s[7].id[0] == 'n');
        assert(s[8].id[0] == 'm');
    }
}

// ---------------------------------------------------------------------------
// Resolving a compute request
// ---------------------------------------------------------------------------

/// What a compute request resolves to before any series is read: the
/// indicator, the output it asks for and the period used when it names none.
#[derive(Clone, Copy, Debug, PartialEq, Eq)]
pub struct GaRequestPlan {
    pub indicator: &'static GaIndicatorInfo,
    pub output: &'static GaOutputInfo,
    pub default_period: usize,
}

pub open spec fn output_view(o: GaOutputInfo) -> (Seq<char>, Seq<char>, GaValueType) {
    (o.id@, o.label@, o.value_type)
}

/// Index of the first output with id `o`, from `j` on.
pub open spec fn output_index_from(
    outs: Seq<(Seq<char>, Seq<char>, GaValueType)>,
    o: Seq<char>,
    j: int,
) -> Option<int>
    decreases outs.len() - j,
{
    if j < 0 || j >= outs.len() {
        None
    } else if outs[j].0 == o {
        Some(j)
    } else {
        output_index_from(outs, o, j + 1)
    }
}

/// The output a request names, else the indicator's first, else `value`.
pub open spec fn spec_requested_output(m: IndicatorModel, requested: Option<Seq<char>>) -> Seq<char> {
    match requested {
        Some(o) => o,
        None => if m.outputs.len() > 0 {
            m.outputs[0].0
        } else {
            "value"@
        },
    }
}

/// The first parameter's default, else 60.
pub open spec fn spec_default_period(m: IndicatorModel) -> int {
    if m.params.len() > 0 {
        m.params[0].1 as usize as int
    } else {
        60
    }
}

pub open spec fn opt_str(o: Option<&str>) -> Option<Seq<char>> {
    match o {
        Some(s) => Some(s@),
        None => None,
    }
}

/// Check a request against the registry: the indicator must exist, take the
/// given kind of input and have the requested output.
pub fn plan_compute(indicator_id: &str, output_id: Option<&str>, input_kind: GaInputKind) -> (r: Result<
    GaRequestPlan,
    GaComputeError,
>)
    ensures
        match r {
            Ok(p) => {
                &&& p.indicator.id@ == indicator_id@
                &&& exists|i: int|
                    0 <= i < spec_indicators().len() && p.indicator@ =~~= #[trigger] spec_indicators()[i]
                &&& p.indicator.input_kind == input_kind
                &&& output_index_from(
                    p.indicator@.outputs,
                    spec_requested_output(p.indicator@, opt_str(output_id)),
                    0,
                ) matches Some(j) && output_view(*p.output) == p.indicator@.outputs[j]
                &&& p.default_period == spec_default_period(p.indicator@)
            },
            Err(GaComputeError::UnknownIndicator(s)) => s@ == indicator_id@ && forall|i: int|
                0 <= i < spec_indicators().len() ==> #[trigger] spec_indicators()[i].id != indicator_id@,
            Err(GaComputeError::InputKindMismatch(s)) => s@ == indicator_id@ && exists|i: int|
                0 <= i < spec_indicators().len() && #[trigger] spec_indicators()[i].id == indicator_id@
                    && spec_indicators()[i].input_kind != input_kind,
            Err(GaComputeError::UnknownOutput { output_id: o, indicator_id: d }) => {
                &&& d@ == indicator_id@
                &&& exists|i: int|
                    0 <= i < spec_indicators().len() && #[trigger] spec_indicators()[i].id == indicator_id@
                        && spec_indicators()[i].input_kind == input_kind && o@ == spec_requested_output(
                        spec_indicators()[i],
                        opt_str(output_id),
                    ) && output_index_from(spec_indicators()[i].outputs, o@, 0) is None
            },
            Err(_) => false,
        },
{
    let info = match get_indicator(indicator_id) {
        Some(info) => info,
        None => return Err(GaComputeError::UnknownIndicator(indicator_id.to_owned())),
    };
    let ghost k = choose|i: int|
        0 <= i < spec_indicators().len() && info@ =~~= #[trigger] spec_indicators()[i];
    assert(spec_indicators()[k].id == indicator_id@);
    assert(spec_indicators()[k].input_kind == info.input_kind);
    if info.input_kind != input_kind {
        return Err(GaComputeError::InputKindMismatch(indicator_id.to_owned()));
    }
    let default_period: usize = if info.params.len() > 0 {
        info.params[0].default_int as usize
    } else {
        60
    };
    let wanted: &str = match output_id {
        Some(o) => o,
        None => if info.outputs.len() > 0 {
            info.outputs[0].id
        } else {
            "value"
        },
    };
    let ghost outs = info@.outputs;
    assert(outs.len() == info.outputs@.len());
    assert(wanted@ == spec_requested_output(info@, opt_str(output_id)));
    assert(info.params@.len() > 0 ==> info@.params[0].1 == info.params@[0].default_int);
    assert(default_period == spec_default_period(info@));
    let key = chars_of(wanted);
    let mut j: usize = 0;
    while j < info.outputs.len()
        invariant
            j <= info.outputs@.len(),
            outs == info@.outputs,
            outs.len() == info.outputs@.len(),
            key@ == wanted@,
            output_index_from(outs, wanted@, 0) == output_index_from(outs, wanted@, j as int),
            0 <= k < spec_indicators().len(),
            info@ =~~= spec_indicators()[k],
            default_period == spec_default_period(info@),
            info.input_kind == input_kind,
            info.id@ == indicator_id@,
            wanted@ == spec_requested_output(info@, opt_str(output_id)),
        decreases info.outputs.len() - j,
    {
        assert(outs[j as int] == output_view(info.outputs@[j as int]));
        if seq_eq(&chars_of(info.outputs[j].id), &key) {
            let plan = GaRequestPlan { indicator: info, output: &info.outputs[j], default_period };
            assert(output_index_from(outs, wanted@, j as int) == Some(j as int));
            assert(output_view(*plan.output) == outs[j as int]);
            assert(exists|i: int|
                0 <= i < spec_indicators().len() && plan.indicator@ =~~= #[trigger] spec_indicators()[i]);
            return Ok(plan);
        }
        j = j + 1;
    }
    assert(spec_indicators()[k].outputs == outs);
    Err(GaComputeError::UnknownOutput { output_id: wanted.to_owned(), indicator_id: indicator_id.to_owned() })
}

/// The constituent column an `nnls_weights` output names: `weight_<n>`
/// gives `n`, anything else the first column.
pub open spec fn spec_nnls_column(output_id: Seq<char>) -> nat {
    if starts_with(output_id, "weight_"@) {
        match parse_usize(output_id.subrange(7, output_id.len() as int)) {
            Some(n) => n,
            None => 0,
        }
    } else {
        0
    }
}

pub fn nnls_output_column(output_id: &str) -> (r: usize)
    ensures
        r == spec_nnls_column(output_id@),
{
    proof {
        reveal_strlit("weight_");
    }
    let s = chars_of(output_id);
    if !starts_with_chars(&s, &chars_of("weight_")) {
        return 0;
    }
    match parse_usize_of(&slice_of(&s, 7, s.len())) {
        Some(n) => n,
        None => 0,
    }
}

/// Bars in an approximate trading month.
pub const TRADING_MONTH_BARS: usize = 21;

/// Bar `index` of `len` closes a month: every 21st bar, and the last bar.
pub open spec fn is_month_end(index: int, len: int) -> bool {
    (index + 1) % (TRADING_MONTH_BARS as int) == 0 || index + 1 == len
}

/// Month-end flag: true every 21 bars (approximate trading month).
pub fn month_end_flag(len: usize) -> (r: Vec<bool>)
    ensures
        r@.len() == len,
        forall|i: int| 0 <= i < len ==> #[trigger] r@[i] == is_month_end(i, len as int),
{
    let mut out: Vec<bool> = Vec::new();
    let mut index: usize = 0;
    while index < len
        invariant
            index <= len,
            out@.len() == index,
            forall|i: int| 0 <= i < index ==> #[trigger] out@[i] == is_month_end(i, len as int),
        decreases len - index,
    {
        out.push((index + 1) % TRADING_MONTH_BARS == 0 || index + 1 == len);
        index = index + 1;
    }
    out
}

} // verus!
