//! Layer opinion tray state for the topology dopesheet: mute / isolate flags
//! and the displayed layer order.

use crate::path::{file_name_of, path_file_name};
use crate::text::{chars_of, string_of};
use vstd::prelude::*;

verus! {

#[derive(Debug, Copy, Clone, PartialEq, Eq, Structural)]
pub enum LayerDisplayState {
    Active,
    Muted,
    Isolated,
}

#[derive(Clone, Debug, PartialEq, Eq)]
pub struct LayerDescriptor {
    pub filename: String,
    pub display_name: String,
    /// Lower index = stronger opinion in the LIVRPS stack (session strongest).
    pub priority_order: usize,
    pub state: LayerDisplayState,
    pub is_user_editable: bool,
}

/// Per-layer flags: explicit states by file name, the display order and the
/// isolated layer, if any.
#[derive(Debug)]
pub struct LayerStackControlState {
    layer_states: Vec<(String, LayerDisplayState)>,
    layer_order: Vec<String>,
    isolated_layer: Option<String>,
}

/// What a tray holds: the explicit state recorded for each file name, the
/// display order and the isolated layer.
pub struct LayerTrayModel {
    pub explicit: Map<Seq<char>, LayerDisplayState>,
    pub order: Seq<Seq<char>>,
    pub isolated: Option<Seq<char>>,
}

/// The state a layer shows: isolation wins, then an explicit state, else active.
pub open spec fn model_state(m: LayerTrayModel, f: Seq<char>) -> LayerDisplayState {
    if m.isolated == Some(f) {
        LayerDisplayState::Isolated
    } else if m.explicit.contains_key(f) {
        m.explicit[f]
    } else {
        LayerDisplayState::Active
    }
}

/// The state a mute toggle moves a layer to.
pub open spec fn toggled(s: LayerDisplayState) -> LayerDisplayState {
    match s {
        LayerDisplayState::Active => LayerDisplayState::Muted,
        LayerDisplayState::Muted => LayerDisplayState::Active,
        LayerDisplayState::Isolated => LayerDisplayState::Active,
    }
}

/// `Some(f)` stops being the isolated layer; any other isolation stays.
pub open spec fn release_isolation(iso: Option<Seq<char>>, f: Seq<char>) -> Option<Seq<char>> {
    if iso == Some(f) {
        None
    } else {
        iso
    }
}

pub open spec fn model_toggle_mute(m: LayerTrayModel, f: Seq<char>) -> LayerTrayModel {
    let next = toggled(model_state(m, f));
    LayerTrayModel {
        explicit: if next == LayerDisplayState::Active {
            m.explicit.remove(f)
        } else {
            m.explicit.insert(f, next)
        },
        order: m.order,
        isolated: release_isolation(m.isolated, f),
    }
}

/// What every tray keeps: no layer records `Isolated` as its explicit state,
/// and the isolated layer has no explicit state.
pub open spec fn tray_wf(m: LayerTrayModel) -> bool {
    &&& forall|g: Seq<char>| #[trigger] m.explicit.contains_key(g) ==> m.explicit[g] != LayerDisplayState::Isolated
    &&& m.isolated matches Some(f) ==> !m.explicit.contains_key(f)
}

pub open spec fn model_isolate(m: LayerTrayModel, f: Seq<char>) -> LayerTrayModel {
    LayerTrayModel { explicit: m.explicit.remove(f), order: m.order, isolated: Some(f) }
}

pub open spec fn model_clear_isolation(m: LayerTrayModel) -> LayerTrayModel {
    LayerTrayModel { explicit: m.explicit, order: m.order, isolated: None }
}

/// Move the item at `from` to index `to` (no change when out of range or equal).
pub open spec fn spec_reorder<A>(order: Seq<A>, from: int, to: int) -> Seq<A> {
    if from < 0 || to < 0 || from >= order.len() || to >= order.len() || from == to {
        order
    } else {
        order.remove(from).insert(to, order[from])
    }
}

pub open spec fn model_reorder(m: LayerTrayModel, from: int, to: int) -> LayerTrayModel {
    LayerTrayModel {
        explicit: m.explicit,
        order: spec_reorder(m.order, from, to),
        isolated: m.isolated,
    }
}

/// An empty list leaves the order as it was.
pub open spec fn model_sync_order(m: LayerTrayModel, names: Seq<Seq<char>>) -> LayerTrayModel {
    LayerTrayModel {
        explicit: m.explicit,
        order: if names.len() == 0 {
            m.order
        } else {
            names
        },
        isolated: m.isolated,
    }
}

/// Display name of a layer identifier: its file name, else the identifier.
pub open spec fn spec_layer_display_name(identifier: Seq<char>) -> Seq<char> {
    match path_file_name(identifier) {
        Some(n) => n,
        None => identifier,
    }
}

/// The entry recorded last for `f` (entries are kept one per name).
pub open spec fn lookup(es: Seq<(Seq<char>, LayerDisplayState)>, f: Seq<char>) -> Option<
    LayerDisplayState,
>
    decreases es.len(),
{
    if es.len() == 0 {
        None
    } else if es.last().0 == f {
        Some(es.last().1)
    } else {
        lookup(es.drop_last(), f)
    }
}

pub open spec fn entry_views(es: Seq<(String, LayerDisplayState)>) -> Seq<
    (Seq<char>, LayerDisplayState),
> {
    Seq::new(es.len(), |i: int| (es[i].0@, es[i].1))
}

pub open spec fn string_views(v: Seq<String>) -> Seq<Seq<char>> {
    Seq::new(v.len(), |i: int| v[i]@)
}

pub open spec fn entries_map(es: Seq<(Seq<char>, LayerDisplayState)>) -> Map<
    Seq<char>,
    LayerDisplayState,
> {
    Map::new(|f: Seq<char>| lookup(es, f) is Some, |f: Seq<char>| lookup(es, f)->0)
}

proof fn lemma_lookup_push(
    es: Seq<(Seq<char>, LayerDisplayState)>,
    e: (Seq<char>, LayerDisplayState),
    g: Seq<char>,
)
    ensures
        lookup(es.push(e), g) == (if e.0 == g {
            Some(e.1)
        } else {
            lookup(es, g)
        }),
{
    assert(es.push(e).drop_last() =~= es);
}

/// Toggling mute twice on a layer that is not isolated leaves every layer
/// showing the state it showed before.
pub proof fn lemma_toggle_mute_twice(m: LayerTrayModel, f: Seq<char>)
    requires
        model_state(m, f) != LayerDisplayState::Isolated,
    ensures
        forall|g: Seq<char>|
            #[trigger] model_state(model_toggle_mute(model_toggle_mute(m, f), f), g)
                == model_state(m, g),
{
}

/// Isolating a layer makes it the one isolated layer; every other layer keeps
/// its state unless it was the isolated one; clearing isolation afterwards
/// leaves the layer active.
pub proof fn lemma_isolate_then_clear(m: LayerTrayModel, f: Seq<char>)
    ensures
        model_state(model_isolate(m, f), f) == LayerDisplayState::Isolated,
        forall|g: Seq<char>|
            g != f && m.isolated != Some(g) ==> #[trigger] model_state(model_isolate(m, f), g)
                == model_state(m, g),
        model_state(model_clear_isolation(model_isolate(m, f)), f) == LayerDisplayState::Active,
{
}

/// Toggling mute moves a layer from active to muted and from muted or
/// isolated to active, leaves every other layer and the order as they were,
/// and toggling the isolated layer leaves no layer isolated.
pub proof fn lemma_toggle_mute_states(m: LayerTrayModel, f: Seq<char>)
    requires
        tray_wf(m),
    ensures
        tray_wf(model_toggle_mute(m, f)),
        model_state(model_toggle_mute(m, f), f) == (if model_state(m, f) == LayerDisplayState::Active {
            LayerDisplayState::Muted
        } else {
            LayerDisplayState::Active
        }),
        forall|g: Seq<char>| g != f ==> #[trigger] model_state(model_toggle_mute(m, f), g) == model_state(m, g),
        model_toggle_mute(m, f).order == m.order,
        model_state(m, f) == LayerDisplayState::Isolated ==> forall|g: Seq<char>|
            #[trigger] model_state(model_toggle_mute(m, f), g) != LayerDisplayState::Isolated,
{
    let n = model_toggle_mute(m, f);
    assert forall|g: Seq<char>| #[trigger] n.explicit.contains_key(g) implies n.explicit[g] != LayerDisplayState::Isolated by {
        if g != f {
            assert(m.explicit.contains_key(g));
        }
    }
    if model_state(m, f) == LayerDisplayState::Isolated {
        assert forall|g: Seq<char>| #[trigger] model_state(n, g) != LayerDisplayState::Isolated by {
            if n.explicit.contains_key(g) {
                assert(m.explicit.contains_key(g));
            }
        }
    }
}

/// Isolating a layer makes it the one isolated layer; a layer that was
/// isolated before becomes active; every other layer and the order stay.
pub proof fn lemma_isolate_states(m: LayerTrayModel, f: Seq<char>)
    requires
        tray_wf(m),
    ensures
        tray_wf(model_isolate(m, f)),
        model_state(model_isolate(m, f), f) == LayerDisplayState::Isolated,
        forall|g: Seq<char>|
            g != f ==> #[trigger] model_state(model_isolate(m, f), g) == (if model_state(m, g)
                == LayerDisplayState::Isolated {
                LayerDisplayState::Active
            } else {
                model_state(m, g)
            }),
        model_isolate(m, f).order == m.order,
{
    let n = model_isolate(m, f);
    assert forall|g: Seq<char>| #[trigger] n.explicit.contains_key(g) implies n.explicit[g] != LayerDisplayState::Isolated by {
        assert(m.explicit.contains_key(g));
    }
    assert forall|g: Seq<char>| g != f implies #[trigger] model_state(n, g) == (if model_state(m, g)
        == LayerDisplayState::Isolated {
        LayerDisplayState::Active
    } else {
        model_state(m, g)
    }) by {
        if m.explicit.contains_key(g) {
            assert(m.explicit[g] != LayerDisplayState::Isolated);
        }
    }
}

/// Reordering permutes the layers, and moving an item back restores the order.
#[verifier::spinoff_prover]
pub proof fn lemma_reorder_permutes<A>(order: Seq<A>, from: int, to: int)
    ensures
        spec_reorder(order, from, to).to_multiset() == order.to_multiset(),
        0 <= from < order.len() && 0 <= to < order.len() ==> spec_reorder(
            spec_reorder(order, from, to),
            to,
            from,
        ) == order,
{
    if 0 <= from < order.len() && 0 <= to < order.len() && from != to {
        let x = order[from];
        let r = order.remove(from);
        vstd::seq_lib::to_multiset_remove(order, from);
        vstd::seq_lib::to_multiset_insert(r, to, x);
        vstd::seq_lib::to_multiset_contains(order, x);
        assert(order.contains(x)) by {
            assert(order[from] == x);
        }
        assert(order.to_multiset().remove(x).insert(x) =~= order.to_multiset()) by {
            broadcast use vstd::multiset::group_multiset_axioms;
        }
        let moved = r.insert(to, x);
        assert(moved[to] == x);
        assert(moved.remove(to) =~= r);
        assert(r.insert(from, x) =~= order);
    }
}

impl View for LayerStackControlState {
    type V = LayerTrayModel;

    closed spec fn view(&self) -> LayerTrayModel {
        LayerTrayModel {
            explicit: entries_map(entry_views(self.layer_states@)),
            order: string_views(self.layer_order@),
            isolated: match self.isolated_layer {
                Some(s) => Some(s@),
                None => None,
            },
        }
    }
}

/// `es` without the entries named `f`.
fn without_entry(es: &Vec<(String, LayerDisplayState)>, f: &String) -> (out: Vec<
    (String, LayerDisplayState),
>)
    ensures
        forall|g: Seq<char>|
            #[trigger] lookup(entry_views(out@), g) == (if g == f@ {
                None
            } else {
                lookup(entry_views(es@), g)
            }),
{
    let mut out: Vec<(String, LayerDisplayState)> = Vec::new();
    let mut i: usize = 0;
    while i < es.len()
        invariant
            i <= es@.len(),
            forall|g: Seq<char>|
                #[trigger] lookup(entry_views(out@), g) == (if g == f@ {
                    None
                } else {
                    lookup(entry_views(es@.subrange(0, i as int)), g)
                }),
        decreases es.len() - i,
    {
        let ghost before = out@;
        let ghost ev = (es@[i as int].0@, es@[i as int].1);
        assert(entry_views(es@.subrange(0, i as int + 1)) =~= entry_views(
            es@.subrange(0, i as int),
        ).push(ev));
        if !(es[i].0 == *f) {
            let name = es[i].0.clone();
            out.push((name, es[i].1));
            assert(entry_views(out@) =~= entry_views(before).push(ev));
            assert forall|g: Seq<char>|
                #[trigger] lookup(entry_views(out@), g) == (if g == f@ {
                    None
                } else {
                    lookup(entry_views(es@.subrange(0, i as int + 1)), g)
                }) by {
                lemma_lookup_push(entry_views(before), ev, g);
                lemma_lookup_push(entry_views(es@.subrange(0, i as int)), ev, g);
            }
        } else {
            assert forall|g: Seq<char>|
                #[trigger] lookup(entry_views(out@), g) == (if g == f@ {
                    None
                } else {
                    lookup(entry_views(es@.subrange(0, i as int + 1)), g)
                }) by {
                lemma_lookup_push(entry_views(es@.subrange(0, i as int)), ev, g);
            }
        }
        i = i + 1;
    }
    assert(es@.subrange(0, es@.len() as int) =~= es@);
    out
}

impl LayerStackControlState {
    #[verifier::type_invariant]
    spec fn keeps_tray_wf(self) -> bool {
        tray_wf(self@)
    }

    /// Every tray meets `tray_wf`.
    pub fn is_well_formed(&self) -> (r: bool)
        ensures
            r,
            tray_wf(self@),
    {
        proof {
            use_type_invariant(self);
        }
        true
    }

    /// A fresh tray over `default_stack` (the workstation layer stack), with
    /// every layer active and none isolated.
    pub fn new(default_stack: &[&str]) -> (s: LayerStackControlState)
        ensures
            s@.order == Seq::new(default_stack@.len(), |i: int| default_stack@[i]@),
            s@.explicit == Map::<Seq<char>, LayerDisplayState>::empty(),
            s@.isolated is None,
    {
        let mut order: Vec<String> = Vec::new();
        let mut i: usize = 0;
        while i < default_stack.len()
            invariant
                i <= default_stack@.len(),
                string_views(order@) =~= Seq::new(i as nat, |k: int| default_stack@[k]@),
            decreases default_stack.len() - i,
        {
            let ghost before = order@;
            let name = default_stack[i].to_owned();
            order.push(name);
            assert(string_views(order@) =~= string_views(before).push(default_stack@[i as int]@));
            i = i + 1;
        }
        let s = LayerStackControlState {
            layer_states: Vec::new(),
            layer_order: order,
            isolated_layer: None,
        };
        assert(s@.explicit =~= Map::<Seq<char>, LayerDisplayState>::empty());
        s
    }

    fn explicit_state(&self, key: &String) -> (r: Option<LayerDisplayState>)
        ensures
            r == lookup(entry_views(self.layer_states@), key@),
    {
        let ghost v = entry_views(self.layer_states@);
        let mut i: usize = self.layer_states.len();
        assert(v.subrange(0, i as int) =~= v);
        while i > 0
            invariant
                i <= self.layer_states@.len(),
                v == entry_views(self.layer_states@),
                lookup(v, key@) == lookup(v.subrange(0, i as int), key@),
            decreases i,
        {
            assert(v.subrange(0, i as int).drop_last() =~= v.subrange(0, i as int - 1));
            if self.layer_states[i - 1].0 == *key {
                return Some(self.layer_states[i - 1].1);
            }
            i = i - 1;
        }
        None
    }

    fn is_isolated(&self, key: &String) -> (r: bool)
        ensures
            r == (self@.isolated == Some(key@)),
    {
        match &self.isolated_layer {
            Some(iso) => *iso == *key,
            None => false,
        }
    }

    pub fn state_for(&self, filename: &str) -> (r: LayerDisplayState)
        ensures
            r == model_state(self@, filename@),
    {
        let key = filename.to_owned();
        if self.is_isolated(&key) {
            return LayerDisplayState::Isolated;
        }
        match self.explicit_state(&key) {
            Some(s) => s,
            None => LayerDisplayState::Active,
        }
    }

    fn forget(&mut self, key: &String)
        ensures
            tray_wf(final(self)@),
            final(self)@.explicit == old(self)@.explicit.remove(key@),
            final(self)@.order == old(self)@.order,
            final(self)@.isolated == old(self)@.isolated,
    {
        proof {
            use_type_invariant(&*self);
        }
        let states = without_entry(&self.layer_states, key);
        proof {
            let m = LayerTrayModel {
                explicit: entries_map(entry_views(states@)),
                order: self@.order,
                isolated: self@.isolated,
            };
            assert(m.explicit =~= old(self)@.explicit.remove(key@));
        }
        self.layer_states = states;
        assert(self@.explicit =~= old(self)@.explicit.remove(key@));
    }

    fn record(&mut self, key: &String, state: LayerDisplayState)
        requires
            state != LayerDisplayState::Isolated,
            old(self)@.isolated != Some(key@),
        ensures
            tray_wf(final(self)@),
            final(self)@.explicit == old(self)@.explicit.insert(key@, state),
            final(self)@.order == old(self)@.order,
            final(self)@.isolated == old(self)@.isolated,
    {
        proof {
            use_type_invariant(&*self);
        }
        let mut states = without_entry(&self.layer_states, key);
        let ghost before = states@;
        states.push((key.clone(), state));
        assert(entry_views(states@) =~= entry_views(before).push((key@, state)));
        assert forall|g: Seq<char>|
            #[trigger] lookup(entry_views(states@), g) == (if g == key@ {
                Some(state)
            } else {
                lookup(entry_views(old(self).layer_states@), g)
            }) by {
            lemma_lookup_push(entry_views(before), (key@, state), g);
        }
        assert(entries_map(entry_views(states@)) =~= old(self)@.explicit.insert(key@, state));
        self.layer_states = states;
        assert(self@.explicit =~= old(self)@.explicit.insert(key@, state));
    }

    /// Active ↔ muted; an isolated layer becomes active and stops being isolated.
    pub fn toggle_mute(&mut self, filename: &str)
        ensures
            final(self)@ == model_toggle_mute(old(self)@, filename@),
            tray_wf(final(self)@),
    {
        proof {
            use_type_invariant(&*self);
        }
        let key = filename.to_owned();
        let next = match self.state_for(filename) {
            LayerDisplayState::Active => LayerDisplayState::Muted,
            LayerDisplayState::Muted => LayerDisplayState::Active,
            LayerDisplayState::Isolated => LayerDisplayState::Active,
        };
        if next == LayerDisplayState::Active {
            self.forget(&key);
        } else {
            self.record(&key, next);
        }
        if self.is_isolated(&key) {
            self.isolated_layer = None;
        }
        proof {
            use_type_invariant(&*self);
        }
    }

    /// Isolate `filename`; its explicit state is dropped.
    pub fn isolate_layer(&mut self, filename: &str)
        ensures
            final(self)@ == model_isolate(old(self)@, filename@),
            tray_wf(final(self)@),
    {
        let key = filename.to_owned();
        self.forget(&key);
        self.isolated_layer = Some(key);
        proof {
            use_type_invariant(&*self);
        }
    }

    pub fn clear_isolation(&mut self)
        ensures
            final(self)@ == model_clear_isolation(old(self)@),
            tray_wf(final(self)@),
    {
        proof {
            use_type_invariant(&*self);
        }
        self.isolated_layer = None;
    }

    /// Move the layer at `from` to `to`; out-of-range or equal indices do nothing.
    pub fn reorder(&mut self, from: usize, to: usize)
        ensures
            final(self)@ == model_reorder(old(self)@, from as int, to as int),
    {
        proof {
            use_type_invariant(&*self);
        }
        if from >= self.layer_order.len() || to >= self.layer_order.len() || from == to {
            return;
        }
        let ghost o = self.layer_order@;
        let mut order: Vec<String> = Vec::new();
        std::mem::swap(&mut order, &mut self.layer_order);
        let item = order.remove(from);
        order.insert(to, item);
        assert(string_views(order@) =~= spec_reorder(string_views(o), from as int, to as int));
        self.layer_order = order;
    }

    pub fn ordered_layers(&self) -> (r: &[String])
        ensures
            string_views(r@) == self@.order,
    {
        self.layer_order.as_slice()
    }

    /// Replace the order with `filenames`, unless that list is empty.
    pub fn sync_ordered_layers(&mut self, filenames: Vec<String>)
        ensures
            final(self)@ == model_sync_order(old(self)@, string_views(filenames@)),
    {
        proof {
            use_type_invariant(&*self);
        }
        if filenames.len() == 0 {
            return;
        }
        self.layer_order = filenames;
    }
}

impl Clone for LayerStackControlState {
    fn clone(&self) -> (r: Self)
        ensures
            r@ == self@,
    {
        proof {
            use_type_invariant(self);
        }
        let mut states: Vec<(String, LayerDisplayState)> = Vec::new();
        let mut i: usize = 0;
        while i < self.layer_states.len()
            invariant
                i <= self.layer_states@.len(),
                entry_views(states@) == entry_views(self.layer_states@).subrange(0, i as int),
            decreases self.layer_states.len() - i,
        {
            let ghost before = entry_views(states@);
            states.push((self.layer_states[i].0.clone(), self.layer_states[i].1));
            assert(entry_views(states@) =~= before.push(entry_views(self.layer_states@)[i as int]));
            assert(entry_views(self.layer_states@).subrange(0, i + 1) =~= entry_views(
                self.layer_states@,
            ).subrange(0, i as int).push(entry_views(self.layer_states@)[i as int]));
            i = i + 1;
        }
        assert(entry_views(self.layer_states@).subrange(0, i as int) =~= entry_views(self.layer_states@));
        let mut order: Vec<String> = Vec::new();
        let mut j: usize = 0;
        while j < self.layer_order.len()
            invariant
                j <= self.layer_order@.len(),
                string_views(order@) == string_views(self.layer_order@).subrange(0, j as int),
            decreases self.layer_order.len() - j,
        {
            let ghost before = string_views(order@);
            let name = self.layer_order[j].clone();
            assert(name@ == self.layer_order@[j as int]@);
            order.push(name);
            assert(string_views(order@) =~= before.push(self.layer_order@[j as int]@));
            assert(string_views(order@) =~= string_views(self.layer_order@).subrange(0, j + 1));
            j = j + 1;
        }
        assert(string_views(self.layer_order@).subrange(0, j as int) =~= string_views(self.layer_order@));
        let isolated_layer = match &self.isolated_layer {
            Some(f) => Some(f.clone()),
            None => None,
        };
        LayerStackControlState { layer_states: states, layer_order: order, isolated_layer }
    }
}

impl Default for LayerStackControlState {
    fn default() -> (s: Self)
        ensures
            s@.order == Seq::<Seq<char>>::empty(),
            s@.explicit == Map::<Seq<char>, LayerDisplayState>::empty(),
            s@.isolated is None,
    {
        let s = LayerStackControlState {
            layer_states: Vec::new(),
            layer_order: Vec::new(),
            isolated_layer: None,
        };
        assert(s@.explicit =~= Map::<Seq<char>, LayerDisplayState>::empty());
        assert(s@.order =~= Seq::<Seq<char>>::empty());
        s
    }
}

/// The file name of a layer identifier, or the identifier itself.
pub fn layer_display_name(identifier: &str) -> (r: String)
    ensures
        r@ == spec_layer_display_name(identifier@),
{
    let cs = chars_of(identifier);
    match file_name_of(cs.as_slice()) {
        Some(n) => string_of(n.as_slice()),
        None => identifier.to_owned(),
    }
}

/// One descriptor per layer in display order; only `session_layer` is editable.
pub fn build_layer_descriptors(state: &LayerStackControlState, session_layer: &str) -> (r: Vec<
    LayerDescriptor,
>)
    ensures
        r@.len() == state@.order.len(),
        forall|i: int|
            0 <= i < r@.len() ==> {
                let d = #[trigger] r@[i];
                &&& d.filename@ == state@.order[i]
                &&& d.display_name@ == spec_layer_display_name(state@.order[i])
                &&& d.priority_order == i
                &&& d.state == model_state(state@, state@.order[i])
                &&& d.is_user_editable == (state@.order[i] == session_layer@)
            },
{
    let layers = state.ordered_layers();
    let session = session_layer.to_owned();
    let mut out: Vec<LayerDescriptor> = Vec::new();
    let mut i: usize = 0;
    while i < layers.len()
        invariant
            i <= layers@.len(),
            string_views(layers@) == state@.order,
            session@ == session_layer@,
            out@.len() == i,
            forall|k: int|
                0 <= k < i ==> {
                    let d = #[trigger] out@[k];
                    &&& d.filename@ == state@.order[k]
                    &&& d.display_name@ == spec_layer_display_name(state@.order[k])
                    &&& d.priority_order == k
                    &&& d.state == model_state(state@, state@.order[k])
                    &&& d.is_user_editable == (state@.order[k] == session_layer@)
                },
        decreases layers.len() - i,
    {
        let filename = &layers[i];
        assert(filename@ == state@.order[i as int]);
        let d = LayerDescriptor {
            filename: filename.clone(),
            display_name: layer_display_name(filename.as_str()),
            priority_order: i,
            state: state.state_for(filename.as_str()),
            is_user_editable: *filename == session,
        };
        out.push(d);
        i = i + 1;
    }
    out
}

} // verus!
