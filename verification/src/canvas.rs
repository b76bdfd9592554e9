//! Node canvas logic: which relationship a dropped wire authors and the
//! targets it leaves, drill-down canvas tabs, and single-line node labels.

use crate::script::{join_space, join_space_of, tokens, tokens_of, views};
use crate::text::{append_chars, chars_of, contains, contains_chars, slice_of, starts_with, starts_with_chars, string_of};
use vstd::prelude::*;

verus! {

/// Execution input slot targeted when a wire is dropped on a node port.
#[derive(Debug, Clone, Copy, PartialEq, Eq, Structural)]
pub enum ExecutionSlotKind {
    /// Tier-1 asset path bound to an OTL `inputs:underlying` rel.
    UnderlyingInput,
    /// Tier-2 signal bound to a portfolio `inputs:sources` rel.
    SignalInput,
}

/// Compiled `stage.set_relationship()` directive from a canvas wire drop.
#[derive(Debug, Clone, PartialEq, Eq)]
pub struct StageRelationshipDirective {
    pub target_prim_path: String,
    pub relationship: String,
    pub source_prim_path: String,
}

/// The relationship a slot is wired through.
pub open spec fn slot_relationship(slot: ExecutionSlotKind) -> Seq<char> {
    match slot {
        ExecutionSlotKind::UnderlyingInput => "inputs:underlying"@,
        ExecutionSlotKind::SignalInput => "inputs:sources"@,
    }
}

/// `stage.set_relationship("<target>", "<relationship>", "<source>")`.
pub open spec fn instruction_text(target: Seq<char>, relationship: Seq<char>, source: Seq<char>) -> Seq<char> {
    "stage.set_relationship(\""@ + target + "\", \""@ + relationship + "\", \""@ + source + "\")"@
}

impl StageRelationshipDirective {
    /// The directive as a stage call, for logs and the wiring console.
    pub fn as_stage_instruction(&self) -> (r: String)
        ensures
            r@ == instruction_text(
                self.target_prim_path@,
                self.relationship@,
                self.source_prim_path@,
            ),
    {
        let mut v = chars_of("stage.set_relationship(\"");
        append_chars(&mut v, &chars_of(self.target_prim_path.as_str()));
        append_chars(&mut v, &chars_of("\", \""));
        append_chars(&mut v, &chars_of(self.relationship.as_str()));
        append_chars(&mut v, &chars_of("\", \""));
        append_chars(&mut v, &chars_of(self.source_prim_path.as_str()));
        append_chars(&mut v, &chars_of("\")"));
        string_of(&v)
    }
}

/// Map a wire drop onto the textual stage relationship directive.
pub fn compile_relationship_directive(
    target_prim_path: &str,
    source_prim_path: &str,
    slot: ExecutionSlotKind,
) -> (r: StageRelationshipDirective)
    ensures
        r.target_prim_path@ == target_prim_path@,
        r.relationship@ == slot_relationship(slot),
        r.source_prim_path@ == source_prim_path@,
{
    let relationship = match slot {
        ExecutionSlotKind::UnderlyingInput => "inputs:underlying".to_owned(),
        ExecutionSlotKind::SignalInput => "inputs:sources".to_owned(),
    };
    StageRelationshipDirective {
        target_prim_path: target_prim_path.to_owned(),
        relationship,
        source_prim_path: source_prim_path.to_owned(),
    }
}

pub open spec fn spec_slot_for_type(composed_type: Seq<char>) -> Option<ExecutionSlotKind> {
    if composed_type == "OtlOperator"@ || composed_type == "OtlTaUberSignal"@ {
        Some(ExecutionSlotKind::UnderlyingInput)
    } else if composed_type == "PortfolioIntegrator"@ {
        Some(ExecutionSlotKind::SignalInput)
    } else {
        None
    }
}

/// Infer the execution slot from the downstream prim's composed schema type.
pub fn execution_slot_for_target_type(composed_type: &str) -> (r: Option<ExecutionSlotKind>)
    ensures
        r == spec_slot_for_type(composed_type@),
{
    let t = composed_type.to_owned();
    if t == "OtlOperator".to_owned() || t == "OtlTaUberSignal".to_owned() {
        Some(ExecutionSlotKind::UnderlyingInput)
    } else if t == "PortfolioIntegrator".to_owned() {
        Some(ExecutionSlotKind::SignalInput)
    } else {
        None
    }
}

pub open spec fn spec_slot_for_prim(path: Seq<char>) -> Option<ExecutionSlotKind> {
    if starts_with(path, "/analytics/"@) || contains(path, "/rsi"@) || contains(path, "/macd"@) {
        Some(ExecutionSlotKind::UnderlyingInput)
    } else if starts_with(path, "/portfolios/"@) || contains(path, "Portfolio"@) {
        Some(ExecutionSlotKind::SignalInput)
    } else {
        None
    }
}

/// Infer the execution slot from the downstream prim path prefix (legacy fallback).
pub fn execution_slot_for_target_prim(target_prim_path: &str) -> (r: Option<ExecutionSlotKind>)
    ensures
        r == spec_slot_for_prim(target_prim_path@),
{
    let p = chars_of(target_prim_path);
    if starts_with_chars(&p, &chars_of("/analytics/")) || contains_chars(&p, &chars_of("/rsi"))
        || contains_chars(&p, &chars_of("/macd")) {
        Some(ExecutionSlotKind::UnderlyingInput)
    } else if starts_with_chars(&p, &chars_of("/portfolios/")) || contains_chars(
        &p,
        &chars_of("Portfolio"),
    ) {
        Some(ExecutionSlotKind::SignalInput)
    } else {
        None
    }
}

// ---------------------------------------------------------------------------
// Connecting two prims
// ---------------------------------------------------------------------------

/// The slot a wire dropped on `target` binds: the one its composed type names,
/// else the one its path suggests.
pub open spec fn spec_connection_slot(target_type: Option<Seq<char>>, target: Seq<char>) -> Option<
    ExecutionSlotKind,
> {
    match target_type {
        Some(t) => match spec_slot_for_type(t) {
            Some(s) => Some(s),
            None => spec_slot_for_prim(target),
        },
        None => spec_slot_for_prim(target),
    }
}

/// The directive for a wire from `source_path` dropped on the prim at
/// `target_prim_path` whose composed type is `target_type`; `None` when the
/// target takes no execution input.
pub fn connection_directive(
    target_type: Option<&str>,
    target_prim_path: &str,
    source_path: &str,
) -> (r: Option<StageRelationshipDirective>)
    ensures
        match spec_connection_slot(
            match target_type {
                Some(t) => Some(t@),
                None => None,
            },
            target_prim_path@,
        ) {
            Some(slot) => r matches Some(d) && d.target_prim_path@ == target_prim_path@
                && d.relationship@ == slot_relationship(slot) && d.source_prim_path@
                == source_path@,
            None => r is None,
        },
{
    let from_type = match target_type {
        Some(t) => execution_slot_for_target_type(t),
        None => None,
    };
    let slot = match from_type {
        Some(s) => Some(s),
        None => execution_slot_for_target_prim(target_prim_path),
    };
    match slot {
        Some(s) => Some(compile_relationship_directive(target_prim_path, source_path, s)),
        None => None,
    }
}

pub open spec fn text_views(v: Seq<String>) -> Seq<Seq<char>> {
    Seq::new(v.len(), |i: int| v[i]@)
}

/// The targets after wiring `source` in: appended at the end, or `None` when
/// it is a target already (nothing to author).
pub open spec fn spec_targets_with(targets: Seq<Seq<char>>, source: Seq<char>) -> Option<Seq<Seq<char>>> {
    if targets.contains(source) {
        None
    } else {
        Some(targets.push(source))
    }
}

/// The relationship targets once `source` is wired in, or `None` when it
/// already is.
pub fn targets_with_source(targets: &Vec<String>, source: &str) -> (r: Option<Vec<String>>)
    ensures
        match spec_targets_with(text_views(targets@), source@) {
            Some(t) => r matches Some(v) && text_views(v@) == t,
            None => r is None,
        },
{
    let key = source.to_owned();
    let mut out: Vec<String> = Vec::new();
    let mut i: usize = 0;
    while i < targets.len()
        invariant
            i <= targets@.len(),
            key@ == source@,
            text_views(out@) == text_views(targets@).subrange(0, i as int),
            forall|j: int| 0 <= j < i ==> #[trigger] text_views(targets@)[j] != source@,
        decreases targets.len() - i,
    {
        if targets[i] == key {
            assert(text_views(targets@)[i as int] == source@);
            return None;
        }
        let ghost before = text_views(out@);
        let c = targets[i].clone();
        out.push(c);
        assert(text_views(out@) =~= before.push(text_views(targets@)[i as int]));
        assert(text_views(out@) =~= text_views(targets@).subrange(0, i + 1));
        i = i + 1;
    }
    assert(text_views(targets@).subrange(0, targets@.len() as int) =~= text_views(targets@));
    let ghost before = text_views(out@);
    out.push(key);
    assert(text_views(out@) =~= before.push(source@));
    Some(out)
}

/// Wiring the same source in twice authors nothing the second time.
pub proof fn lemma_wiring_is_idempotent(targets: Seq<Seq<char>>, source: Seq<char>)
    ensures
        spec_targets_with(targets, source) matches Some(t) ==> spec_targets_with(t, source) is None,
{
    if !targets.contains(source) {
        assert(targets.push(source)[targets.len() as int] == source);
    }
}

// ---------------------------------------------------------------------------
// Drill-down canvas tabs
// ---------------------------------------------------------------------------

/// One drill-down tab isolating an aggregator block's constituent graph space.
#[derive(Clone, Debug, PartialEq, Eq)]
pub struct CanvasEnvironmentTab {
    pub label: String,
    /// `None` = root pipeline canvas; `Some` = scoped to an aggregator node id.
    pub scope_node_id: Option<usize>,
    /// USD prim path for the aggregator block (used in tab subtitle).
    pub scope_path: Option<String>,
}

impl CanvasEnvironmentTab {
    /// The root pipeline canvas.
    pub fn root() -> (r: Self)
        ensures
            r.label@ == "Pipeline"@,
            r.scope_node_id is None,
            r.scope_path is None,
    {
        CanvasEnvironmentTab { label: "Pipeline".to_owned(), scope_node_id: None, scope_path: None }
    }

    /// A canvas scoped to the aggregator node `node_id` at `scope_path`.
    pub fn aggregator(label: String, node_id: usize, scope_path: String) -> (r: Self)
        ensures
            r.label@ == label@,
            r.scope_node_id == Some(node_id),
            r.scope_path matches Some(p) && p@ == scope_path@,
    {
        CanvasEnvironmentTab { label, scope_node_id: Some(node_id), scope_path: Some(scope_path) }
    }

    pub fn is_root(&self) -> (r: bool)
        ensures
            r == self.scope_node_id is None,
    {
        self.scope_node_id.is_none()
    }
}

// ---------------------------------------------------------------------------
// Single-line labels
// ---------------------------------------------------------------------------

/// The words of `name` joined by single spaces (line breaks and runs of
/// blanks collapse, ends are trimmed).
pub open spec fn spec_sanitize_label(name: Seq<char>) -> Seq<char> {
    join_space(tokens(name))
}

/// Collapse whitespace and strip line breaks for single-line pill labels.
pub fn sanitize_node_label_text(name: &str) -> (r: String)
    ensures
        r@ == spec_sanitize_label(name@),
{
    let ts = tokens_of(&chars_of(name));
    assert(views(ts@).subrange(0, ts@.len() as int) =~= views(ts@));
    string_of(&join_space_of(&ts, 0))
}

/// The sanitized label cut to at most `max_chars` characters: unchanged when
/// it fits, else its first `max_chars - 3` characters and `...` (just `...`
/// for a budget of 3 or less); empty for a budget of 0.
pub open spec fn spec_truncate_label(name: Seq<char>, max_chars: int) -> Seq<char> {
    let clean = spec_sanitize_label(name);
    if max_chars <= 0 {
        Seq::empty()
    } else if clean.len() <= max_chars {
        clean
    } else if max_chars <= 3 {
        "..."@
    } else {
        clean.subrange(0, max_chars - 3) + "..."@
    }
}

/// Truncate a label to a single line of at most `max_chars` characters.
pub fn truncate_label_to_chars(name: &str, max_chars: usize) -> (r: String)
    ensures
        r@ == spec_truncate_label(name@, max_chars as int),
{
    let clean = chars_of(sanitize_node_label_text(name).as_str());
    if max_chars == 0 {
        return String::new();
    }
    if clean.len() <= max_chars {
        return string_of(&clean);
    }
    if max_chars <= 3 {
        let dots = "...".to_owned();
        proof {
            reveal_strlit("...");
        }
        return dots;
    }
    let mut head = slice_of(&clean, 0, max_chars - 3);
    append_chars(&mut head, &chars_of("..."));
    proof {
        reveal_strlit("...");
    }
    string_of(&head)
}

} // verus!
