//! Logical strategy topology: the tree shown in the workspace outline, the
//! prim types it is built from, and the socket sides of collapsed nodes.

use crate::stage_overlay::{entry_keys, find_last, lemma_find_last_is_some};
use crate::text::{
    chars_of, slice_of, starts_with, starts_with_chars, string_of, strip_trailing, strip_trailing_of, trim, trim_of,
};
use vstd::prelude::*;

verus! {

/// Which long edge of a collapsed capsule hosts a socket cluster.
#[derive(Debug, Clone, Copy, PartialEq, Eq, Structural)]
pub enum CapsuleSocketSide {
    Input,
    Output,
}

#[derive(Debug)]
pub struct LogicalTreeNode {
    pub prim_path: String,
    pub display_label: String,
    pub children: Vec<LogicalTreeNode>,
}

impl Clone for LogicalTreeNode {
    fn clone(&self) -> (r: Self)
        decreases self,
    {
        let mut children: Vec<LogicalTreeNode> = Vec::new();
        let mut i: usize = 0;
        while i < self.children.len()
            invariant
                i <= self.children@.len(),
            decreases self.children.len() - i,
        {
            proof {
                assert(decreases_to!(self => self.children));
                assert(decreases_to!(self.children => self.children@));
                assert(decreases_to!(self.children@ => self.children@[i as int]));
            }
            children.push(self.children[i].clone());
            i = i + 1;
        }
        LogicalTreeNode {
            prim_path: self.prim_path.clone(),
            display_label: self.display_label.clone(),
            children,
        }
    }
}

/// The prim type implied by where a prim sits when it has no authored type.
pub open spec fn spec_legacy_type_name(path: Seq<char>) -> Option<Seq<char>> {
    if starts_with(path, "/assets/"@) {
        Some("FinancialAsset"@)
    } else if starts_with(path, "/analytics/"@) {
        Some("OtlTaUberSignal"@)
    } else if starts_with(path, "/portfolios/"@) {
        Some("PortfolioIntegrator"@)
    } else {
        None
    }
}

pub fn legacy_type_name_from_path(path_str: &str) -> (r: Option<String>)
    ensures
        r matches Some(s) ==> spec_legacy_type_name(path_str@) == Some(s@),
        r is None ==> spec_legacy_type_name(path_str@) is None,
{
    let p = chars_of(path_str);
    if starts_with_chars(&p, &chars_of("/assets/")) {
        Some("FinancialAsset".to_owned())
    } else if starts_with_chars(&p, &chars_of("/analytics/")) {
        Some("OtlTaUberSignal".to_owned())
    } else if starts_with_chars(&p, &chars_of("/portfolios/")) {
        Some("PortfolioIntegrator".to_owned())
    } else {
        None
    }
}

/// Drop every leading `c`.
pub open spec fn strip_leading(s: Seq<char>, c: char) -> Seq<char>
    decreases s.len(),
{
    if s.len() > 0 && s[0] == c {
        strip_leading(s.drop_first(), c)
    } else {
        s
    }
}

/// `str::trim_matches('"')`.
pub open spec fn unquote(s: Seq<char>) -> Seq<char> {
    strip_leading(strip_trailing(s, '"'), '"')
}

/// The schema's own class prims, never listed in the topology.
pub open spec fn is_schema_class_path(path: Seq<char>) -> bool {
    ||| path == "/FinancialAsset"@
    ||| path == "/OtlOperator"@
    ||| path == "/OtlTaUberSignal"@
    ||| path == "/PortfolioIntegrator"@
    ||| path == "/Typed"@
    ||| path == "/Plugins"@
    ||| path == "/Scope"@
}

pub open spec fn is_topology_type(t: Seq<char>) -> bool {
    t == "FinancialAsset"@ || t == "OtlOperator"@ || t == "OtlTaUberSignal"@ || t
        == "PortfolioIntegrator"@
}

/// The topology type of a prim: its authored type name (unquoted, when not
/// empty), else the type implied by its path; only the four strategy types
/// count, and the schema's class prims never do.
pub open spec fn spec_classify_prim_type(path: Seq<char>, authored: Option<Seq<char>>) -> Option<
    Seq<char>,
> {
    if is_schema_class_path(path) {
        None
    } else {
        let t = match authored {
            Some(a) if unquote(a).len() > 0 => Some(unquote(a)),
            _ => spec_legacy_type_name(path),
        };
        match t {
            Some(t) => if is_topology_type(t) {
                Some(t)
            } else {
                None
            },
            None => None,
        }
    }
}

fn strip_leading_of(s: &[char], c: char) -> (out: Vec<char>)
    ensures
        out@ == strip_leading(s@, c),
{
    let mut i: usize = 0;
    assert(s@.subrange(0, s@.len() as int) =~= s@);
    while i < s.len() && s[i] == c
        invariant
            i <= s@.len(),
            strip_leading(s@, c) == strip_leading(s@.subrange(i as int, s@.len() as int), c),
        decreases s.len() - i,
    {
        assert(s@.subrange(i as int, s@.len() as int).drop_first() =~= s@.subrange(
            i + 1,
            s@.len() as int,
        ));
        i = i + 1;
    }
    slice_of(s, i, s.len())
}

fn str_is(a: &String, lit: &str) -> (r: bool)
    ensures
        r == (a@ == lit@),
{
    *a == lit.to_owned()
}

/// `authored_type` is the prim's `typeName` field as the stage holds it.
pub fn classify_prim_type(path_str: &str, authored_type: Option<&str>) -> (r: Option<String>)
    ensures
        r matches Some(s) ==> spec_classify_prim_type(
            path_str@,
            match authored_type {
                Some(a) => Some(a@),
                None => None,
            },
        ) == Some(s@),
        r is None ==> spec_classify_prim_type(
            path_str@,
            match authored_type {
                Some(a) => Some(a@),
                None => None,
            },
        ) is None,
{
    let p = path_str.to_owned();
    if str_is(&p, "/FinancialAsset") || str_is(&p, "/OtlOperator") || str_is(&p, "/OtlTaUberSignal")
        || str_is(&p, "/PortfolioIntegrator") || str_is(&p, "/Typed") || str_is(&p, "/Plugins")
        || str_is(&p, "/Scope") {
        return None;
    }
    let unquoted: Option<String> = match authored_type {
        Some(a) => {
            let u = strip_leading_of(&strip_trailing_of(&chars_of(a), '"'), '"');
            if u.len() > 0 {
                Some(string_of(&u))
            } else {
                None
            }
        },
        None => None,
    };
    let t = match unquoted {
        Some(u) => u,
        None => match legacy_type_name_from_path(path_str) {
            Some(l) => l,
            None => return None,
        },
    };
    if str_is(&t, "FinancialAsset") || str_is(&t, "OtlOperator") || str_is(&t, "OtlTaUberSignal")
        || str_is(&t, "PortfolioIntegrator") {
        Some(t)
    } else {
        None
    }
}

// ---------------------------------------------------------------------------
// The strategy tree
// ---------------------------------------------------------------------------

/// `(prim path, inputs:sources targets)` of each prim that has the relationship.
pub open spec fn source_views(sources: Seq<(String, Vec<String>)>) -> Seq<(Seq<char>, Seq<Seq<char>>)> {
    Seq::new(sources.len(), |i: int| (sources[i].0@, Seq::new(sources[i].1@.len(), |j: int| sources[i].1@[j]@)))
}

pub open spec fn label_views(labels: Seq<(String, String)>) -> Seq<(Seq<char>, Seq<char>)> {
    Seq::new(labels.len(), |i: int| (labels[i].0@, labels[i].1@))
}

/// The `inputs:sources` targets of `p` (none when it has no such relationship).
pub open spec fn sources_of(sv: Seq<(Seq<char>, Seq<Seq<char>>)>, p: Seq<char>) -> Seq<Seq<char>> {
    match find_last(sv, p) {
        Some(t) => t,
        None => Seq::empty(),
    }
}

/// The label given for `p` (empty when none is).
pub open spec fn label_of(lv: Seq<(Seq<char>, Seq<char>)>, p: Seq<char>) -> Seq<char> {
    match find_last(lv, p) {
        Some(l) => l,
        None => Seq::empty(),
    }
}

/// Paths that have a sources relationship and are not on the current walk.
pub open spec fn open_paths(sv: Seq<(Seq<char>, Seq<Seq<char>>)>, walk: Set<Seq<char>>) -> nat {
    entry_keys(sv).to_set().difference(walk).len()
}

/// Adding a path with a sources relationship to the walk leaves fewer open paths.
pub proof fn lemma_open_paths_shrink(sv: Seq<(Seq<char>, Seq<Seq<char>>)>, walk: Set<Seq<char>>, p: Seq<char>)
    requires
        entry_keys(sv).to_set().contains(p),
        !walk.contains(p),
    ensures
        open_paths(sv, walk.insert(p)) < open_paths(sv, walk),
{
    let keys = entry_keys(sv).to_set();
    vstd::seq_lib::seq_to_set_is_finite(entry_keys(sv));
    assert(keys.difference(walk.insert(p)) =~= keys.difference(walk).remove(p));
    assert(keys.difference(walk).contains(p));
}

#[via_fn]
proof fn strategy_subtree_decreases(
    n: LogicalTreeNode,
    sv: Seq<(Seq<char>, Seq<Seq<char>>)>,
    lv: Seq<(Seq<char>, Seq<char>)>,
    p: Seq<char>,
    walk: Set<Seq<char>>,
) {
    if !walk.contains(p) && entry_keys(sv).to_set().contains(p) {
        lemma_open_paths_shrink(sv, walk, p);
    }
}

/// `n` is the strategy subtree at `p` reached along the walk `walk`: `p`
/// with its label, and, unless `p` is already on the walk, one child per
/// `inputs:sources` target in order, each the subtree at that target with
/// `p` added to the walk. A path met again on its own walk is a leaf, which
/// keeps a cyclic wiring finite.
pub open spec fn is_strategy_subtree(
    n: LogicalTreeNode,
    sv: Seq<(Seq<char>, Seq<Seq<char>>)>,
    lv: Seq<(Seq<char>, Seq<char>)>,
    p: Seq<char>,
    walk: Set<Seq<char>>,
) -> bool
    decreases open_paths(sv, walk),
    via strategy_subtree_decreases
{
    &&& n.prim_path@ == p
    &&& n.display_label@ == label_of(lv, p)
    &&& if !walk.contains(p) && entry_keys(sv).to_set().contains(p) {
        (n.children@.len() == sources_of(sv, p).len() && forall|i: int|
            0 <= i < sources_of(sv, p).len() ==> is_strategy_subtree(
                #[trigger] n.children@[i],
                sv,
                lv,
                sources_of(sv, p)[i],
                walk.insert(p),
            ))
    } else {
        n.children@.len() == 0
    }
}

/// The paths of a walk.
pub open spec fn walk_set(walk: Seq<String>) -> Set<Seq<char>> {
    Seq::new(walk.len(), |i: int| walk[i]@).to_set()
}

proof fn lemma_walk_push(walk: Seq<String>, p: String)
    ensures
        walk_set(walk.push(p)) == walk_set(walk).insert(p@),
{
    let a = Seq::new(walk.len(), |i: int| walk[i]@);
    let b = Seq::new(walk.push(p).len(), |i: int| walk.push(p)[i]@);
    assert(b =~= a.push(p@));
    assert forall|x: Seq<char>| #[trigger] b.to_set().contains(x) <==> a.to_set().insert(p@).contains(x) by {
        if a.contains(x) {
            let j = choose|j: int| 0 <= j < a.len() && a[j] == x;
            assert(b[j] == x);
        }
        if x == p@ {
            assert(b[a.len() as int] == x);
        }
        if b.contains(x) && x != p@ {
            let j = choose|j: int| 0 <= j < b.len() && b[j] == x;
            assert(j < a.len());
            assert(a[j] == x);
        }
    }
    assert(b.to_set() =~= a.to_set().insert(p@));
}

fn on_walk(walk: &Vec<String>, p: &String) -> (r: bool)
    ensures
        r == walk_set(walk@).contains(p@),
{
    let ghost w = Seq::new(walk@.len(), |i: int| walk@[i]@);
    let mut i: usize = 0;
    while i < walk.len()
        invariant
            i <= walk@.len(),
            w == Seq::new(walk@.len(), |i: int| walk@[i]@),
            forall|j: int| 0 <= j < i ==> #[trigger] w[j] != p@,
        decreases walk.len() - i,
    {
        if walk[i] == *p {
            assert(w[i as int] == p@);
            return true;
        }
        i = i + 1;
    }
    false
}

/// Index of the last sources entry of `p`.
fn last_sources_index(sources: &Vec<(String, Vec<String>)>, p: &String) -> (r: Option<usize>)
    ensures
        match r {
            Some(i) => i < sources@.len() && find_last(source_views(sources@), p@) == Some(
                source_views(sources@)[i as int].1,
            ),
            None => find_last(source_views(sources@), p@) is None,
        },
{
    let ghost sv = source_views(sources@);
    let mut i: usize = sources.len();
    assert(sv.subrange(0, i as int) =~= sv);
    while i > 0
        invariant
            i <= sources@.len(),
            sv == source_views(sources@),
            find_last(sv, p@) == find_last(sv.subrange(0, i as int), p@),
        decreases i,
    {
        assert(sv.subrange(0, i as int).drop_last() =~= sv.subrange(0, i - 1));
        if sources[i - 1].0 == *p {
            return Some(i - 1);
        }
        i = i - 1;
    }
    None
}

/// The label given for `p`, or the empty text.
fn label_for(labels: &Vec<(String, String)>, p: &String) -> (r: String)
    ensures
        r@ == label_of(label_views(labels@), p@),
{
    let ghost lv = label_views(labels@);
    let mut i: usize = labels.len();
    assert(lv.subrange(0, i as int) =~= lv);
    while i > 0
        invariant
            i <= labels@.len(),
            lv == label_views(labels@),
            find_last(lv, p@) == find_last(lv.subrange(0, i as int), p@),
        decreases i,
    {
        assert(lv.subrange(0, i as int).drop_last() =~= lv.subrange(0, i - 1));
        if labels[i - 1].0 == *p {
            return labels[i - 1].1.clone();
        }
        i = i - 1;
    }
    String::new()
}

/// The strategy subtree at `p`; `walk` holds the paths on the way from the
/// root and is as it was when this returns.
fn build_subtree(
    sources: &Vec<(String, Vec<String>)>,
    labels: &Vec<(String, String)>,
    p: &String,
    walk: &mut Vec<String>,
) -> (n: LogicalTreeNode)
    ensures
        is_strategy_subtree(n, source_views(sources@), label_views(labels@), p@, walk_set(old(walk)@)),
        final(walk)@ == old(walk)@,
    decreases open_paths(source_views(sources@), walk_set(old(walk)@)),
{
    let ghost sv = source_views(sources@);
    let ghost lv = label_views(labels@);
    let display_label = label_for(labels, p);
    let seen = on_walk(walk, p);
    let found = last_sources_index(sources, p);
    proof {
        lemma_find_last_is_some(sv, p@);
    }
    if seen || found.is_none() {
        proof {
            if !seen {
                assert(!entry_keys(sv).contains(p@));
                assert(!entry_keys(sv).to_set().contains(p@));
            }
        }
        return LogicalTreeNode { prim_path: p.clone(), display_label, children: Vec::new() };
    }
    let i = found.unwrap();
    let ghost before = walk@;
    proof {
        assert(entry_keys(sv).contains(p@));
        assert(entry_keys(sv).to_set().contains(p@));
        lemma_open_paths_shrink(sv, walk_set(before), p@);
        lemma_walk_push(before, *p);
    }
    walk.push(p.clone());
    let targets = &sources[i].1;
    let ghost ts = sources_of(sv, p@);
    assert(ts == Seq::new(targets@.len(), |j: int| targets@[j]@));
    let mut children: Vec<LogicalTreeNode> = Vec::new();
    let mut j: usize = 0;
    while j < targets.len()
        invariant
            j <= targets@.len(),
            sv == source_views(sources@),
            lv == label_views(labels@),
            ts == Seq::new(targets@.len(), |j: int| targets@[j]@),
            walk@ == before.push(*p),
            walk_set(walk@) == walk_set(before).insert(p@),
            open_paths(sv, walk_set(walk@)) < open_paths(sv, walk_set(before)),
            before == old(walk)@,
            children@.len() == j,
            forall|k: int| 0 <= k < j ==> is_strategy_subtree(#[trigger] children@[k], sv, lv, ts[k], walk_set(before).insert(p@)),
        decreases targets.len() - j,
    {
        let child = build_subtree(sources, labels, &targets[j], walk);
        children.push(child);
        j = j + 1;
    }
    walk.pop();
    assert(walk@ =~= before);
    LogicalTreeNode { prim_path: p.clone(), display_label, children }
}

/// Paths of the `PortfolioIntegrator` prims, in stage order.
pub open spec fn portfolio_paths(pv: Seq<(Seq<char>, Seq<char>)>) -> Seq<Seq<char>>
    decreases pv.len(),
{
    if pv.len() == 0 {
        Seq::empty()
    } else if pv.last().1 == "PortfolioIntegrator"@ {
        portfolio_paths(pv.drop_last()).push(pv.last().0)
    } else {
        portfolio_paths(pv.drop_last())
    }
}

/// Paths of the asset and signal prims, in stage order.
pub open spec fn outline_paths(pv: Seq<(Seq<char>, Seq<char>)>) -> Seq<Seq<char>>
    decreases pv.len(),
{
    if pv.len() == 0 {
        Seq::empty()
    } else if pv.last().1 == "FinancialAsset"@ || pv.last().1 == "OtlTaUberSignal"@ || pv.last().1
        == "OtlOperator"@ {
        outline_paths(pv.drop_last()).push(pv.last().0)
    } else {
        outline_paths(pv.drop_last())
    }
}

/// A portfolio that another portfolio lists among its sources.
pub open spec fn is_nested_portfolio(
    sv: Seq<(Seq<char>, Seq<Seq<char>>)>,
    portfolios: Seq<Seq<char>>,
    p: Seq<char>,
) -> bool {
    exists|k: int| 0 <= k < portfolios.len() && #[trigger] sources_of(sv, portfolios[k]).contains(p)
}

/// The portfolios of `ps` that no portfolio of `all` lists as a source.
pub open spec fn root_portfolios(
    sv: Seq<(Seq<char>, Seq<Seq<char>>)>,
    all: Seq<Seq<char>>,
    ps: Seq<Seq<char>>,
) -> Seq<Seq<char>>
    decreases ps.len(),
{
    if ps.len() == 0 {
        Seq::empty()
    } else if is_nested_portfolio(sv, all, ps.last()) {
        root_portfolios(sv, all, ps.drop_last())
    } else {
        root_portfolios(sv, all, ps.drop_last()).push(ps.last())
    }
}

fn contains_text(v: &Vec<String>, p: &String) -> (r: bool)
    ensures
        r == Seq::new(v@.len(), |j: int| v@[j]@).contains(p@),
{
    let ghost w = Seq::new(v@.len(), |j: int| v@[j]@);
    let mut i: usize = 0;
    while i < v.len()
        invariant
            i <= v@.len(),
            w == Seq::new(v@.len(), |j: int| v@[j]@),
            forall|j: int| 0 <= j < i ==> #[trigger] w[j] != p@,
        decreases v.len() - i,
    {
        if v[i] == *p {
            assert(w[i as int] == p@);
            return true;
        }
        i = i + 1;
    }
    false
}

fn nested_portfolio(sources: &Vec<(String, Vec<String>)>, portfolios: &Vec<String>, p: &String) -> (r: bool)
    ensures
        r == is_nested_portfolio(
            source_views(sources@),
            Seq::new(portfolios@.len(), |j: int| portfolios@[j]@),
            p@,
        ),
{
    let ghost sv = source_views(sources@);
    let ghost ports = Seq::new(portfolios@.len(), |j: int| portfolios@[j]@);
    let mut k: usize = 0;
    while k < portfolios.len()
        invariant
            k <= portfolios@.len(),
            sv == source_views(sources@),
            ports == Seq::new(portfolios@.len(), |j: int| portfolios@[j]@),
            forall|m: int| 0 <= m < k ==> !#[trigger] sources_of(sv, ports[m]).contains(p@),
        decreases portfolios.len() - k,
    {
        match last_sources_index(sources, &portfolios[k]) {
            Some(i) => {
                let targets = &sources[i].1;
                assert(sources_of(sv, ports[k as int]) == Seq::new(targets@.len(), |j: int| targets@[j]@));
                if contains_text(targets, p) {
                    assert(sources_of(sv, ports[k as int]).contains(p@));
                    return true;
                }
            },
            None => {
                assert(sources_of(sv, ports[k as int]) == Seq::<Seq<char>>::empty());
            },
        }
        k = k + 1;
    }
    false
}

/// The logical strategy tree shown in the workspace outline. `prims` holds
/// `(path, prim type)` of each active prim in stage order, `sources` the
/// `inputs:sources` targets of each prim that has them, `labels` the label
/// shown for each path. With portfolios on the stage, the tree has one root
/// per portfolio that no portfolio lists as a source, each the strategy
/// subtree at that portfolio; without, it is the asset and signal prims as
/// leaves.
pub fn compile_logical_strategy_tree(
    prims: &Vec<(String, String)>,
    sources: &Vec<(String, Vec<String>)>,
    labels: &Vec<(String, String)>,
) -> (r: Vec<LogicalTreeNode>)
    ensures
        ({
            let pv = label_views(prims@);
            let sv = source_views(sources@);
            let lv = label_views(labels@);
            let ports = portfolio_paths(pv);
            if ports.len() > 0 {
                let roots = root_portfolios(sv, ports, ports);
                &&& r@.len() == roots.len()
                &&& forall|i: int|
                    0 <= i < roots.len() ==> is_strategy_subtree(#[trigger] r@[i], sv, lv, roots[i], Set::empty())
            } else {
                let flat = outline_paths(pv);
                &&& r@.len() == flat.len()
                &&& forall|i: int|
                    0 <= i < flat.len() ==> (#[trigger] r@[i]).prim_path@ == flat[i] && r@[i].display_label@
                        == label_of(lv, flat[i]) && r@[i].children@.len() == 0
            }
        }),
{
    let ghost pv = label_views(prims@);
    let ghost sv = source_views(sources@);
    let ghost lv = label_views(labels@);
    let mut portfolios: Vec<String> = Vec::new();
    let mut i: usize = 0;
    while i < prims.len()
        invariant
            i <= prims@.len(),
            pv == label_views(prims@),
            Seq::new(portfolios@.len(), |j: int| portfolios@[j]@) == portfolio_paths(pv.subrange(0, i as int)),
        decreases prims.len() - i,
    {
        assert(pv.subrange(0, i + 1).drop_last() =~= pv.subrange(0, i as int));
        let ghost before = Seq::new(portfolios@.len(), |j: int| portfolios@[j]@);
        if prims[i].1 == "PortfolioIntegrator".to_owned() {
            portfolios.push(prims[i].0.clone());
            assert(Seq::new(portfolios@.len(), |j: int| portfolios@[j]@) =~= before.push(pv[i as int].0));
        }
        i = i + 1;
    }
    assert(pv.subrange(0, pv.len() as int) =~= pv);
    let ghost ports = Seq::new(portfolios@.len(), |j: int| portfolios@[j]@);
    let mut out: Vec<LogicalTreeNode> = Vec::new();
    if portfolios.len() > 0 {
        let mut k: usize = 0;
        while k < portfolios.len()
            invariant
                k <= portfolios@.len(),
                sv == source_views(sources@),
                lv == label_views(labels@),
                ports == Seq::new(portfolios@.len(), |j: int| portfolios@[j]@),
                out@.len() == root_portfolios(sv, ports, ports.subrange(0, k as int)).len(),
                forall|m: int|
                    0 <= m < out@.len() ==> is_strategy_subtree(
                        #[trigger] out@[m],
                        sv,
                        lv,
                        root_portfolios(sv, ports, ports.subrange(0, k as int))[m],
                        Set::empty(),
                    ),
            decreases portfolios.len() - k,
        {
            let ghost pre = ports.subrange(0, k as int);
            assert(ports.subrange(0, k + 1).drop_last() =~= pre);
            assert(ports.subrange(0, k + 1).last() == ports[k as int]);
            if !nested_portfolio(sources, &portfolios, &portfolios[k]) {
                let mut walk: Vec<String> = Vec::new();
                proof {
                    assert(walk_set(walk@) =~= Set::<Seq<char>>::empty());
                }
                let node = build_subtree(sources, labels, &portfolios[k], &mut walk);
                out.push(node);
            }
            k = k + 1;
        }
        assert(ports.subrange(0, ports.len() as int) =~= ports);
    } else {
        let mut j: usize = 0;
        while j < prims.len()
            invariant
                j <= prims@.len(),
                pv == label_views(prims@),
                lv == label_views(labels@),
                out@.len() == outline_paths(pv.subrange(0, j as int)).len(),
                forall|m: int|
                    0 <= m < out@.len() ==> (#[trigger] out@[m]).prim_path@ == outline_paths(pv.subrange(0, j as int))[m]
                        && out@[m].display_label@ == label_of(lv, outline_paths(pv.subrange(0, j as int))[m])
                        && out@[m].children@.len() == 0,
            decreases prims.len() - j,
        {
            assert(pv.subrange(0, j + 1).drop_last() =~= pv.subrange(0, j as int));
            let t = &prims[j].1;
            if *t == "FinancialAsset".to_owned() || *t == "OtlTaUberSignal".to_owned() || *t
                == "OtlOperator".to_owned() {
                let path = prims[j].0.clone();
                let display_label = label_for(labels, &path);
                out.push(LogicalTreeNode { prim_path: path, display_label, children: Vec::new() });
            }
            j = j + 1;
        }
        assert(pv.subrange(0, pv.len() as int) =~= pv);
    }
    out
}

/// The user label shown for a prim: the asset registry's, unless it is
/// blank, else the one authored on the stage.
pub fn pick_user_label(registry_label: Option<&str>, stage_label: Option<&str>) -> (r: Option<String>)
    ensures
        ({
            match registry_label {
                Some(l) if trim(l@).len() > 0 => r matches Some(x) && x@ == l@,
                _ => match stage_label {
                    Some(l) => r matches Some(x) && x@ == l@,
                    None => r is None,
                },
            }
        }),
{
    if let Some(l) = registry_label {
        if trim_of(&chars_of(l)).len() > 0 {
            return Some(l.to_owned());
        }
    }
    match stage_label {
        Some(l) => Some(l.to_owned()),
        None => None,
    }
}

} // verus!
