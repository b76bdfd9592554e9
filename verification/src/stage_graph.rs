//! Passive stage-graph data handed to the graph engine: prims, wires, the
//! prim-path → asset-slot index and composed asset metadata.

use crate::otc::OtcCompiledAsset;
use crate::portfolio::{last_segment_start, lemma_last_segment_bounds};
use crate::text::{append_chars, chars_of, contains, contains_chars, slice_of, string_of, trim, trim_of};
use vstd::utf8::*;
use vstd::prelude::*;

verus! {

/// One prim-to-prim relationship edge in the compile spec.
#[derive(Clone, Debug, PartialEq, Eq)]
pub struct GraphCompileWire {
    pub source_prim_path: String,
    pub target_prim_path: String,
    pub relationship: String,
}

/// Passive USD prim used when compiling from a stage snapshot.
#[derive(Clone, Debug, Default, PartialEq, Eq)]
pub struct StageGraphPrim {
    pub path: String,
    pub prim_type: String,
    /// Attribute name and value, one entry per attribute name.
    pub attributes: Vec<(String, String)>,
}

/// Composed financial-asset metadata flattened from the taxonomy library.
#[derive(Clone, Debug, Default, PartialEq, Eq)]
pub struct ComposedAssetMeta {
    pub symbol: String,
    pub asset_class: String,
    pub category: String,
    pub sub_category: String,
    pub is_active: bool,
    pub sector: String,
    pub industry: String,
    pub market_cap_class: String,
    pub currency: String,
    pub country: String,
    pub user_label: String,
}

/// Prim path → dense asset-vector slot index for timeline sweeps.
#[derive(Clone, Debug, Default)]
pub struct PathBindingIndex {
    /// Bindings in the order they were made; a later binding of the same path
    /// replaces an earlier one.
    pub asset_slots: Vec<(String, usize)>,
    pub ordered_prim_paths: Vec<String>,
}

pub open spec fn slot_views(slots: Seq<(String, usize)>) -> Seq<(Seq<char>, usize)> {
    Seq::new(slots.len(), |i: int| (slots[i].0@, slots[i].1))
}

/// The slot bound last to `path`.
pub open spec fn slot_lookup(slots: Seq<(Seq<char>, usize)>, path: Seq<char>) -> Option<usize>
    decreases slots.len(),
{
    if slots.len() == 0 {
        None
    } else if slots.last().0 == path {
        Some(slots.last().1)
    } else {
        slot_lookup(slots.drop_last(), path)
    }
}

impl PathBindingIndex {
    pub fn slot_for_prim(&self, prim_path: &str) -> (r: Option<usize>)
        ensures
            r == slot_lookup(slot_views(self.asset_slots@), prim_path@),
    {
        let key = prim_path.to_owned();
        let ghost v = slot_views(self.asset_slots@);
        let mut i: usize = self.asset_slots.len();
        assert(v.subrange(0, i as int) =~= v);
        while i > 0
            invariant
                i <= self.asset_slots@.len(),
                v == slot_views(self.asset_slots@),
                key@ == prim_path@,
                slot_lookup(v, prim_path@) == slot_lookup(v.subrange(0, i as int), prim_path@),
            decreases i,
        {
            assert(v.subrange(0, i as int).drop_last() =~= v.subrange(0, i - 1));
            if self.asset_slots[i - 1].0 == key {
                return Some(self.asset_slots[i - 1].1);
            }
            i = i - 1;
        }
        None
    }
}

/// Declarative USD stage snapshot used to build the graph engine.
#[derive(Clone, Debug, Default)]
pub struct StageGraphSnapshot {
    pub prims: Vec<StageGraphPrim>,
    pub wires: Vec<GraphCompileWire>,
    pub path_bindings: PathBindingIndex,
    /// Asset metadata by prim path, one entry per path.
    pub asset_registry: Vec<(String, ComposedAssetMeta)>,
}

/// Why a stage graph could not be compiled or run.
#[derive(Debug, PartialEq, Eq)]
pub enum GraphEngineError {
    EmptyGraph,
    CycleDetected,
    UnknownPrimPath(String),
    UnsupportedPrimType { prim_type: String, path: String },
    ScriptCompileError { path: String, message: String },
    /// `object_kind` is the name of the OTL object kind that was found.
    ObjectKindMismatch { prim_path: String, object_kind: String },
}

pub enum GraphEngineErrorModel {
    EmptyGraph,
    CycleDetected,
    UnknownPrimPath(Seq<char>),
    UnsupportedPrimType { prim_type: Seq<char>, path: Seq<char> },
    ScriptCompileError { path: Seq<char>, message: Seq<char> },
    ObjectKindMismatch { prim_path: Seq<char>, object_kind: Seq<char> },
}

impl View for GraphEngineError {
    type V = GraphEngineErrorModel;

    open spec fn view(&self) -> GraphEngineErrorModel {
        match self {
            GraphEngineError::EmptyGraph => GraphEngineErrorModel::EmptyGraph,
            GraphEngineError::CycleDetected => GraphEngineErrorModel::CycleDetected,
            GraphEngineError::UnknownPrimPath(p) => GraphEngineErrorModel::UnknownPrimPath(p@),
            GraphEngineError::UnsupportedPrimType { prim_type, path } =>
                GraphEngineErrorModel::UnsupportedPrimType { prim_type: prim_type@, path: path@ },
            GraphEngineError::ScriptCompileError { path, message } =>
                GraphEngineErrorModel::ScriptCompileError { path: path@, message: message@ },
            GraphEngineError::ObjectKindMismatch { prim_path, object_kind } =>
                GraphEngineErrorModel::ObjectKindMismatch {
                prim_path: prim_path@,
                object_kind: object_kind@,
            },
        }
    }
}

/// The text each error is shown with.
pub open spec fn graph_error_message(e: GraphEngineErrorModel) -> Seq<char> {
    match e {
        GraphEngineErrorModel::EmptyGraph => "graph compile spec has no nodes"@,
        GraphEngineErrorModel::CycleDetected => "dependency cycle detected in stage graph"@,
        GraphEngineErrorModel::UnknownPrimPath(p) => "unknown prim path `"@ + p + "`"@,
        GraphEngineErrorModel::UnsupportedPrimType { prim_type, path } => "unsupported prim type `"@
            + prim_type + "` at `"@ + path + "`"@,
        GraphEngineErrorModel::ScriptCompileError { path, message } =>
            "OTL script compile failed for `"@ + path + "`: "@ + message,
        GraphEngineErrorModel::ObjectKindMismatch { prim_path, object_kind } => "OTL object kind `"@
            + object_kind + "` incompatible with prim `"@ + prim_path + "`"@,
    }
}

fn concat5(a: &str, b: &str, c: &str, d: &str, e: &str) -> (r: String)
    ensures
        r@ == a@ + b@ + c@ + d@ + e@,
{
    let mut out = chars_of(a);
    append_chars(&mut out, &chars_of(b));
    append_chars(&mut out, &chars_of(c));
    append_chars(&mut out, &chars_of(d));
    append_chars(&mut out, &chars_of(e));
    string_of(&out)
}

impl GraphEngineError {
    /// The error's display text.
    pub fn message(&self) -> (r: String)
        ensures
            r@ == graph_error_message(self@),
    {
        match self {
            GraphEngineError::EmptyGraph => "graph compile spec has no nodes".to_owned(),
            GraphEngineError::CycleDetected => "dependency cycle detected in stage graph".to_owned(),
            GraphEngineError::UnknownPrimPath(p) => {
                let r = concat5("unknown prim path `", p.as_str(), "`", "", "");
                assert("unknown prim path `"@ + p@ + "`"@ + ""@ + ""@ =~= "unknown prim path `"@
                    + p@ + "`"@) by {
                    reveal_strlit("");
                }
                r
            },
            GraphEngineError::UnsupportedPrimType { prim_type, path } => concat5(
                "unsupported prim type `",
                prim_type.as_str(),
                "` at `",
                path.as_str(),
                "`",
            ),
            GraphEngineError::ScriptCompileError { path, message } => {
                let r = concat5("OTL script compile failed for `", path.as_str(), "`: ", message.as_str(), "");
                assert("OTL script compile failed for `"@ + path@ + "`: "@ + message@ + ""@ =~= "OTL script compile failed for `"@ + path@ + "`: "@ + message@) by {
                    reveal_strlit("");
                }
                r
            },
            GraphEngineError::ObjectKindMismatch { prim_path, object_kind } => concat5(
                "OTL object kind `",
                object_kind.as_str(),
                "` incompatible with prim `",
                prim_path.as_str(),
                "`",
            ),
        }
    }
}


// ---------------------------------------------------------------------------
// Prim attributes and relationships
// ---------------------------------------------------------------------------

pub open spec fn attr_views(attrs: Seq<(String, String)>) -> Seq<(Seq<char>, Seq<char>)> {
    Seq::new(attrs.len(), |i: int| (attrs[i].0@, attrs[i].1@))
}

/// The value recorded last for attribute `name`.
pub open spec fn attr_lookup(attrs: Seq<(Seq<char>, Seq<char>)>, name: Seq<char>) -> Option<
    Seq<char>,
>
    decreases attrs.len(),
{
    if attrs.len() == 0 {
        None
    } else if attrs.last().0 == name {
        Some(attrs.last().1)
    } else {
        attr_lookup(attrs.drop_last(), name)
    }
}

pub(crate) fn attribute_of<'a>(prim: &'a StageGraphPrim, name: &str) -> (r: Option<&'a String>)
    ensures
        r matches Some(v) ==> attr_lookup(attr_views(prim.attributes@), name@) == Some(v@),
        r is None ==> attr_lookup(attr_views(prim.attributes@), name@) is None,
{
    let key = name.to_owned();
    let ghost v = attr_views(prim.attributes@);
    let mut i: usize = prim.attributes.len();
    assert(v.subrange(0, i as int) =~= v);
    while i > 0
        invariant
            i <= prim.attributes@.len(),
            v == attr_views(prim.attributes@),
            key@ == name@,
            attr_lookup(v, name@) == attr_lookup(v.subrange(0, i as int), name@),
        decreases i,
    {
        assert(v.subrange(0, i as int).drop_last() =~= v.subrange(0, i - 1));
        if prim.attributes[i - 1].0 == key {
            return Some(&prim.attributes[i - 1].1);
        }
        i = i - 1;
    }
    None
}

/// The trimmed `inputs:script_compiled_path` of a prim, when it is not blank.
pub open spec fn spec_compiled_script_path(attrs: Seq<(Seq<char>, Seq<char>)>) -> Option<
    Seq<char>,
> {
    match attr_lookup(attrs, "inputs:script_compiled_path"@) {
        Some(p) => if trim(p).len() > 0 {
            Some(trim(p))
        } else {
            None
        },
        None => None,
    }
}

/// Where the prim's compiled `.otc` asset lives, if it names one.
pub fn compiled_script_path(prim: &StageGraphPrim) -> (r: Option<String>)
    ensures
        r matches Some(s) ==> spec_compiled_script_path(attr_views(prim.attributes@)) == Some(s@),
        r is None ==> spec_compiled_script_path(attr_views(prim.attributes@)) is None,
{
    match attribute_of(prim, "inputs:script_compiled_path") {
        Some(p) => {
            let t = trim_of(&chars_of(p.as_str()));
            if t.len() > 0 {
                Some(string_of(&t))
            } else {
                None
            }
        },
        None => None,
    }
}

/// The OTL source a prim runs: the source of its compiled asset when one was
/// loaded and holds UTF-8, else its `inputs:script_src` (empty without one).
pub open spec fn spec_prim_expression(
    attrs: Seq<(Seq<char>, Seq<char>)>,
    compiled: Option<Seq<u8>>,
) -> Seq<char> {
    match compiled {
        Some(b) if valid_utf8(b) => decode_utf8(b),
        _ => match attr_lookup(attrs, "inputs:script_src"@) {
            Some(s) => s,
            None => Seq::empty(),
        },
    }
}

/// `compiled` is the asset loaded from [`compiled_script_path`], if that
/// path was named and the asset loaded.
pub fn resolve_prim_otl_expression(
    prim: &StageGraphPrim,
    compiled: Option<&OtcCompiledAsset>,
) -> (r: String)
    ensures
        r@ == spec_prim_expression(
            attr_views(prim.attributes@),
            match compiled {
                Some(a) => Some(a.bytecode@),
                None => None,
            },
        ),
{
    match compiled {
        Some(asset) => {
            match asset.bytecode_as_script_source() {
                Ok(script) => {
                    return script.to_owned();
                },
                Err(_) => {},
            }
        },
        None => {},
    }
    match attribute_of(prim, "inputs:script_src") {
        Some(s) => s.clone(),
        None => String::new(),
    }
}

pub open spec fn spec_signal_stream_attribute(expression: Seq<char>) -> Seq<char> {
    if contains(expression, "ta::"@) || contains(expression, "input"@) {
        "outputs:result"@
    } else {
        "outputs:signal"@
    }
}

/// The output attribute a signal's stream is written to.
pub fn signal_stream_attribute(expression: &str) -> (r: String)
    ensures
        r@ == spec_signal_stream_attribute(expression@),
{
    let e = chars_of(expression);
    if contains_chars(&e, &chars_of("ta::")) || contains_chars(&e, &chars_of("input")) {
        "outputs:result".to_owned()
    } else {
        "outputs:signal".to_owned()
    }
}

pub open spec fn spec_is_execution_relationship(relationship: Seq<char>) -> bool {
    relationship == "inputs:underlying"@ || relationship == "inputs:sources"@ || relationship
        == "inputs:constituents"@
}

/// Relationships along which values flow between prims.
pub fn is_execution_relationship(relationship: &str) -> (r: bool)
    ensures
        r == spec_is_execution_relationship(relationship@),
{
    let r = relationship.to_owned();
    r == "inputs:underlying".to_owned() || r == "inputs:sources".to_owned() || r
        == "inputs:constituents".to_owned()
}

/// Paths of the `FinancialAsset` prims, in stage order.
pub open spec fn asset_prim_paths(prims: Seq<StageGraphPrim>) -> Seq<Seq<char>>
    decreases prims.len(),
{
    if prims.len() == 0 {
        Seq::empty()
    } else {
        let rest = asset_prim_paths(prims.drop_last());
        if prims.last().prim_type@ == "FinancialAsset"@ {
            rest.push(prims.last().path@)
        } else {
            rest
        }
    }
}

/// Each asset path bound to its position among the asset paths.
pub open spec fn numbered_slots(paths: Seq<Seq<char>>) -> Seq<(Seq<char>, usize)> {
    Seq::new(paths.len(), |i: int| (paths[i], i as usize))
}

/// Dense asset slots for the `FinancialAsset` prims, in stage order.
pub fn build_path_binding_index(prims: &[StageGraphPrim]) -> (r: PathBindingIndex)
    ensures
        Seq::new(r.ordered_prim_paths@.len(), |i: int| r.ordered_prim_paths@[i]@)
            == asset_prim_paths(prims@),
        slot_views(r.asset_slots@) == numbered_slots(asset_prim_paths(prims@)),
{
    let mut ordered: Vec<String> = Vec::new();
    let mut slots: Vec<(String, usize)> = Vec::new();
    let mut i: usize = 0;
    let asset = "FinancialAsset".to_owned();
    while i < prims.len()
        invariant
            i <= prims@.len(),
            asset@ == "FinancialAsset"@,
            Seq::new(ordered@.len(), |k: int| ordered@[k]@) == asset_prim_paths(prims@.subrange(0, i as int)),
            slot_views(slots@) == numbered_slots(asset_prim_paths(prims@.subrange(0, i as int))),
        decreases prims.len() - i,
    {
        let ghost before = prims@.subrange(0, i as int);
        let ghost after = prims@.subrange(0, i + 1);
        assert(after.drop_last() =~= before);
        assert(after.last() == prims@[i as int]);
        if prims[i].prim_type == asset {
            let slot = ordered.len();
            let ghost po = Seq::new(ordered@.len(), |k: int| ordered@[k]@);
            let ghost so = slot_views(slots@);
            slots.push((prims[i].path.clone(), slot));
            ordered.push(prims[i].path.clone());
            assert(Seq::new(ordered@.len(), |k: int| ordered@[k]@) =~= po.push(prims@[i as int].path@));
            assert(so == numbered_slots(po));
            assert(slot_views(slots@) =~= so.push((prims@[i as int].path@, slot)));
            assert(slot as int == po.len());
            assert(slot_views(slots@) =~= numbered_slots(po.push(prims@[i as int].path@)));
        }
        i = i + 1;
    }
    assert(prims@.subrange(0, prims@.len() as int) =~= prims@);
    PathBindingIndex { asset_slots: slots, ordered_prim_paths: ordered }
}

/// The text after the last `/` of a path (all of it when there is none).
pub open spec fn path_leaf(path: Seq<char>) -> Seq<char> {
    path.subrange(last_segment_start(path, path.len() as int), path.len() as int)
}

/// The last segment of a prim path.
pub fn path_leaf_of(path: &str) -> (r: String)
    ensures
        r@ == path_leaf(path@),
{
    let s = chars_of(path);
    let mut i = s.len();
    proof {
        lemma_last_segment_bounds(s@, i as int);
    }
    while i > 0 && s[i - 1] != '/'
        invariant
            i <= s@.len(),
            last_segment_start(s@, s@.len() as int) == last_segment_start(s@, i as int),
        decreases i,
    {
        i = i - 1;
    }
    proof {
        lemma_last_segment_bounds(s@, s@.len() as int);
    }
    string_of(&slice_of(&s, i, s.len()))
}

/// Composed metadata of the `FinancialAsset` prim at `prim_path`, from the
/// attribute texts resolved for it (empty where unset): a missing symbol is
/// the last segment of the path, a missing asset class is `Equity`.
pub fn with_asset_defaults(prim_path: &str, raw: ComposedAssetMeta) -> (r: ComposedAssetMeta)
    ensures
        r.symbol@ == (if raw.symbol@.len() == 0 {
            path_leaf(prim_path@)
        } else {
            raw.symbol@
        }),
        r.asset_class@ == (if raw.asset_class@.len() == 0 {
            "Equity"@
        } else {
            raw.asset_class@
        }),
        r.category@ == raw.category@,
        r.sub_category@ == raw.sub_category@,
        r.is_active == raw.is_active,
        r.sector@ == raw.sector@,
        r.industry@ == raw.industry@,
        r.market_cap_class@ == raw.market_cap_class@,
        r.currency@ == raw.currency@,
        r.country@ == raw.country@,
        r.user_label@ == raw.user_label@,
{
    let ComposedAssetMeta {
        symbol,
        asset_class,
        category,
        sub_category,
        is_active,
        sector,
        industry,
        market_cap_class,
        currency,
        country,
        user_label,
    } = raw;
    let symbol = if chars_of(symbol.as_str()).len() == 0 {
        path_leaf_of(prim_path)
    } else {
        symbol
    };
    let asset_class = if chars_of(asset_class.as_str()).len() == 0 {
        "Equity".to_owned()
    } else {
        asset_class
    };
    ComposedAssetMeta {
        symbol,
        asset_class,
        category,
        sub_category,
        is_active,
        sector,
        industry,
        market_cap_class,
        currency,
        country,
        user_label,
    }
}

/// Relationships read off the stage as lineage wires, in the order they are
/// read for each prim.
pub fn lineage_relationships() -> (r: Vec<&'static str>)
    ensures
        r@.len() == 4,
        r@[0]@ == "inputs:underlying"@,
        r@[1]@ == "inputs:sources"@,
        r@[2]@ == "inputs:constituents"@,
        r@[3]@ == "inputs:target"@,
{
    vec!["inputs:underlying", "inputs:sources", "inputs:constituents", "inputs:target"]
}

pub open spec fn attribute_names(attrs: Seq<(String, String)>) -> Seq<Seq<char>> {
    Seq::new(attrs.len(), |i: int| attrs[i].0@)
}

/// A `FinancialAsset` prim read off the stage without an `inputs:symbol`
/// attribute gets one: the last segment of its path.
pub fn default_symbol_attribute(prim: &mut StageGraphPrim)
    ensures
        final(prim).path == old(prim).path,
        final(prim).prim_type == old(prim).prim_type,
        if old(prim).prim_type@ == "FinancialAsset"@ && !attribute_names(old(prim).attributes@).contains(
            "inputs:symbol"@,
        ) {
            final(prim).attributes@.len() == old(prim).attributes@.len() + 1
                && final(prim).attributes@.subrange(0, old(prim).attributes@.len() as int)
                == old(prim).attributes@ && final(prim).attributes@.last().0@ == "inputs:symbol"@
                && final(prim).attributes@.last().1@ == path_leaf(old(prim).path@)
        } else {
            final(prim).attributes@ == old(prim).attributes@
        },
{
    if prim.prim_type != "FinancialAsset".to_owned() {
        return;
    }
    let key = "inputs:symbol".to_owned();
    let mut i: usize = 0;
    while i < prim.attributes.len()
        invariant
            i <= prim.attributes@.len(),
            key@ == "inputs:symbol"@,
            forall|j: int| 0 <= j < i ==> #[trigger] attribute_names(prim.attributes@)[j] != key@,
        decreases prim.attributes.len() - i,
    {
        if prim.attributes[i].0 == key {
            assert(attribute_names(prim.attributes@)[i as int] == key@);
            return;
        }
        i = i + 1;
    }
    let leaf = path_leaf_of(prim.path.as_str());
    let ghost before = prim.attributes@;
    prim.attributes.push((key, leaf));
    assert(prim.attributes@.subrange(0, before.len() as int) =~= before);
}

} // verus!
