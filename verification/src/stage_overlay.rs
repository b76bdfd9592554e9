//! The passive overlay that sits above a composed USD stage: runtime edits
//! (prim `active` flags, attribute field opinions scoped by edit-target
//! layer, relationship target lists) are held in memory and read before the
//! layers on disk. Reading the stage itself is left to the caller.

use vstd::prelude::*;

verus! {

// ---------------------------------------------------------------------------
// Keyed entries
// ---------------------------------------------------------------------------

/// The value of the last entry whose key is `k`.
pub open spec fn find_last<K, V>(es: Seq<(K, V)>, k: K) -> Option<V>
    decreases es.len(),
{
    if es.len() == 0 {
        None
    } else if es.last().0 == k {
        Some(es.last().1)
    } else {
        find_last(es.drop_last(), k)
    }
}

/// The map that a list of keyed entries stands for.
pub open spec fn entries_as_map<K, V>(es: Seq<(K, V)>) -> Map<K, V> {
    Map::new(|k: K| find_last(es, k) is Some, |k: K| find_last(es, k)->0)
}

pub open spec fn entry_keys<K, V>(es: Seq<(K, V)>) -> Seq<K> {
    Seq::new(es.len(), |i: int| es[i].0)
}

/// No key occurs twice.
pub open spec fn distinct_keys<K, V>(es: Seq<(K, V)>) -> bool {
    entry_keys(es).no_duplicates()
}

proof fn lemma_find_last_distinct<K, V>(es: Seq<(K, V)>, k: K)
    requires
        distinct_keys(es),
    ensures
        forall|i: int| 0 <= i < es.len() && #[trigger] es[i].0 == k ==> find_last(es, k) == Some(es[i].1),
        (forall|i: int| 0 <= i < es.len() ==> #[trigger] es[i].0 != k) ==> find_last(es, k) is None,
    decreases es.len(),
{
    if es.len() > 0 {
        let rest = es.drop_last();
        assert(distinct_keys(rest)) by {
            assert forall|a: int, b: int| 0 <= a < b < rest.len() implies entry_keys(rest)[a] != entry_keys(rest)[b] by {
                assert(entry_keys(es)[a] != entry_keys(es)[b]);
            }
        }
        lemma_find_last_distinct(rest, k);
        assert forall|i: int| 0 <= i < es.len() && #[trigger] es[i].0 == k implies find_last(es, k) == Some(es[i].1) by {
            if i < es.len() - 1 {
                assert(rest[i] == es[i]);
                assert(entry_keys(es)[i] != entry_keys(es)[es.len() - 1]);
            }
        }
        if forall|i: int| 0 <= i < es.len() ==> #[trigger] es[i].0 != k {
            assert(es[es.len() - 1].0 != k);
            assert forall|i: int| 0 <= i < rest.len() implies #[trigger] rest[i].0 != k by {
                assert(rest[i] == es[i]);
            }
        }
    }
}

/// Replacing the value of the entry at `i` sets that key in the map.
proof fn lemma_entries_update<K, V>(es: Seq<(K, V)>, i: int, v: V)
    requires
        distinct_keys(es),
        0 <= i < es.len(),
    ensures
        distinct_keys(es.update(i, (es[i].0, v))),
        entries_as_map(es.update(i, (es[i].0, v))) == entries_as_map(es).insert(es[i].0, v),
{
    let k = es[i].0;
    let out = es.update(i, (k, v));
    assert(entry_keys(out) =~= entry_keys(es));
    assert forall|j: K| #[trigger] find_last(out, j) == (if j == k { Some(v) } else { find_last(es, j) }) by {
        lemma_find_last_distinct(es, j);
        lemma_find_last_distinct(out, j);
        if j == k {
            assert(out[i].0 == k);
        } else {
            if exists|m: int| 0 <= m < es.len() && #[trigger] es[m].0 == j {
                let m = choose|m: int| 0 <= m < es.len() && #[trigger] es[m].0 == j;
                assert(out[m] == es[m]);
            } else {
                assert forall|m: int| 0 <= m < out.len() implies #[trigger] out[m].0 != j by {
                    if m != i {
                        assert(out[m] == es[m]);
                    }
                }
            }
        }
    }
    assert(entries_as_map(out) =~= entries_as_map(es).insert(k, v));
}

/// Appending an entry whose key is new adds that key to the map.
proof fn lemma_entries_push<K, V>(es: Seq<(K, V)>, k: K, v: V)
    requires
        distinct_keys(es),
        forall|i: int| 0 <= i < es.len() ==> #[trigger] es[i].0 != k,
    ensures
        distinct_keys(es.push((k, v))),
        entries_as_map(es.push((k, v))) == entries_as_map(es).insert(k, v),
{
    let out = es.push((k, v));
    assert(out.drop_last() =~= es);
    assert(entry_keys(out) =~= entry_keys(es).push(k));
    assert forall|a: int, b: int| 0 <= a < b < out.len() implies entry_keys(out)[a] != entry_keys(out)[b] by {
        if b == es.len() {
            assert(es[a].0 != k);
        } else {
            assert(entry_keys(es)[a] != entry_keys(es)[b]);
        }
    }
    assert(entries_as_map(out) =~= entries_as_map(es).insert(k, v));
}

/// With distinct keys the map has one key per entry.
proof fn lemma_entries_count<K, V>(es: Seq<(K, V)>)
    requires
        distinct_keys(es),
    ensures
        entries_as_map(es).dom().finite(),
        entries_as_map(es).dom().len() == es.len(),
{
    assert forall|k: K| #[trigger] entries_as_map(es).dom().contains(k) <==> entry_keys(es).to_set().contains(k) by {
        lemma_find_last_distinct(es, k);
        if entry_keys(es).contains(k) {
            let i = choose|i: int| 0 <= i < entry_keys(es).len() && entry_keys(es)[i] == k;
            assert(es[i].0 == k);
        }
        if find_last(es, k) is Some {
            if forall|i: int| 0 <= i < es.len() ==> #[trigger] es[i].0 != k {
            } else {
                let i = choose|i: int| 0 <= i < es.len() && #[trigger] es[i].0 == k;
                assert(entry_keys(es)[i] == k);
            }
        }
    }
    assert(entries_as_map(es).dom() =~= entry_keys(es).to_set());
    entry_keys(es).unique_seq_to_set();
    vstd::seq_lib::seq_to_set_is_finite(entry_keys(es));
}

/// Some entry carries key `k` exactly when the last one with it is found.
pub proof fn lemma_find_last_is_some<K, V>(es: Seq<(K, V)>, k: K)
    ensures
        find_last(es, k) is Some <==> entry_keys(es).contains(k),
    decreases es.len(),
{
    if es.len() > 0 {
        let rest = es.drop_last();
        lemma_find_last_is_some(rest, k);
        assert(entry_keys(rest) =~= entry_keys(es).drop_last());
        if entry_keys(es).contains(k) && es.last().0 != k {
            let i = choose|i: int| 0 <= i < entry_keys(es).len() && entry_keys(es)[i] == k;
            assert(i < es.len() - 1);
            assert(entry_keys(rest)[i] == k);
        }
        if entry_keys(rest).contains(k) {
            let i = choose|i: int| 0 <= i < entry_keys(rest).len() && entry_keys(rest)[i] == k;
            assert(entry_keys(es)[i] == k);
        }
        if es.last().0 == k {
            assert(entry_keys(es)[es.len() - 1] == k);
        }
    }
}

proof fn lemma_empty_entries<K, V>()
    ensures
        distinct_keys(Seq::<(K, V)>::empty()),
        entries_as_map(Seq::<(K, V)>::empty()) == Map::<K, V>::empty(),
{
    assert(entries_as_map(Seq::<(K, V)>::empty()) =~= Map::<K, V>::empty());
}

// ---------------------------------------------------------------------------
// The overlay
// ---------------------------------------------------------------------------

/// Key of one field opinion: the edit-target layer it was written under
/// (`None` for one written with no edit target), the property path and the
/// field name.
struct AttributeFieldKey {
    edit_layer: Option<String>,
    property_path: String,
    field: String,
}

pub open spec fn opt_text(o: Option<String>) -> Option<Seq<char>> {
    match o {
        Some(s) => Some(s@),
        None => None,
    }
}

fn opt_text_eq(a: &Option<String>, b: &Option<String>) -> (r: bool)
    ensures
        r == (opt_text(*a) == opt_text(*b)),
{
    match (a, b) {
        (Some(x), Some(y)) => *x == *y,
        (None, None) => true,
        _ => false,
    }
}

fn copy_opt_text(a: &Option<String>) -> (r: Option<String>)
    ensures
        opt_text(r) == opt_text(*a),
{
    match a {
        Some(x) => Some(x.clone()),
        None => None,
    }
}

pub open spec fn text_views(v: Seq<String>) -> Seq<Seq<char>> {
    Seq::new(v.len(), |i: int| v[i]@)
}

pub open spec fn active_views(es: Seq<(String, bool)>) -> Seq<(Seq<char>, bool)> {
    Seq::new(es.len(), |i: int| (es[i].0@, es[i].1))
}

spec fn field_key_view(k: AttributeFieldKey) -> (Option<Seq<char>>, Seq<char>, Seq<char>) {
    (opt_text(k.edit_layer), k.property_path@, k.field@)
}

spec fn field_views<V>(es: Seq<(AttributeFieldKey, V)>) -> Seq<((Option<Seq<char>>, Seq<char>, Seq<char>), V)> {
    Seq::new(es.len(), |i: int| (field_key_view(es[i].0), es[i].1))
}

pub open spec fn relationship_views(es: Seq<((String, String), Vec<String>)>) -> Seq<
    ((Seq<char>, Seq<char>), Seq<Seq<char>>),
> {
    Seq::new(es.len(), |i: int| ((es[i].0.0@, es[i].0.1@), text_views(es[i].1@)))
}

/// In-memory opinions layered above the stage's layers on disk.
pub struct StageOverlay<V> {
    edit_target_layer: Option<String>,
    active_overrides: Vec<(String, bool)>,
    attribute_overrides: Vec<(AttributeFieldKey, V)>,
    relationship_overrides: Vec<((String, String), Vec<String>)>,
}

pub struct StageOverlayModel<V> {
    /// The layer that new field opinions are scoped to.
    pub edit_target_layer: Option<Seq<char>>,
    /// Prim path → `active` opinion.
    pub active: Map<Seq<char>, bool>,
    /// (edit layer, property path, field name) → value.
    pub fields: Map<(Option<Seq<char>>, Seq<char>, Seq<char>), V>,
    /// (prim path, relationship name) → target paths.
    pub relationships: Map<(Seq<char>, Seq<char>), Seq<Seq<char>>>,
}

impl<V> View for StageOverlay<V> {
    type V = StageOverlayModel<V>;

    closed spec fn view(&self) -> StageOverlayModel<V> {
        StageOverlayModel {
            edit_target_layer: opt_text(self.edit_target_layer),
            active: entries_as_map(active_views(self.active_overrides@)),
            fields: entries_as_map(field_views(self.attribute_overrides@)),
            relationships: entries_as_map(relationship_views(self.relationship_overrides@)),
        }
    }
}

/// The opinion a field read finds in the overlay: the one written under the
/// current edit target, else one written with no edit target.
pub open spec fn spec_field_override<V>(m: StageOverlayModel<V>, property_path: Seq<char>, field: Seq<char>) -> Option<V> {
    let scoped = (m.edit_target_layer, property_path, field);
    let unscoped = (None::<Seq<char>>, property_path, field);
    if m.fields.dom().contains(scoped) {
        Some(m.fields[scoped])
    } else if m.fields.dom().contains(unscoped) {
        Some(m.fields[unscoped])
    } else {
        None
    }
}

/// Approximate overlay footprint in KiB: 96 bytes per field opinion and 128
/// per relationship list, rounded up.
pub open spec fn spec_overlay_kib(fields: nat, relationships: nat) -> nat {
    ((fields * 96 + relationships * 128 + 1023) / 1024) as nat
}

/// The overlay after a field opinion is written under the current edit target.
pub open spec fn overlay_with_field<V>(m: StageOverlayModel<V>, property_path: Seq<char>, field: Seq<char>, v: V) -> StageOverlayModel<V> {
    StageOverlayModel { fields: m.fields.insert((m.edit_target_layer, property_path, field), v), ..m }
}

/// The overlay after a prim's `active` opinion is written.
pub open spec fn overlay_with_active<V>(m: StageOverlayModel<V>, prim_path: Seq<char>, active: bool) -> StageOverlayModel<V> {
    StageOverlayModel { active: m.active.insert(prim_path, active), ..m }
}

/// The overlay after a relationship's target list is written.
pub open spec fn overlay_with_targets<V>(
    m: StageOverlayModel<V>,
    prim_path: Seq<char>,
    relationship: Seq<char>,
    targets: Seq<Seq<char>>,
) -> StageOverlayModel<V> {
    StageOverlayModel { relationships: m.relationships.insert((prim_path, relationship), targets), ..m }
}

/// A read gives back what the last write to the same place wrote, and a
/// write leaves every other place as it was: for field opinions (read under
/// the same edit target), `active` opinions and relationship target lists.
pub proof fn lemma_overlay_reads_back_writes<V>(
    m: StageOverlayModel<V>,
    p: Seq<char>,
    f: Seq<char>,
    v: V,
    q: Seq<char>,
    g: Seq<char>,
    b: bool,
    t: Seq<Seq<char>>,
)
    ensures
        spec_field_override(overlay_with_field(m, p, f, v), p, f) == Some(v),
        (q, g) != (p, f) ==> spec_field_override(overlay_with_field(m, p, f, v), q, g)
            == spec_field_override(m, q, g),
        overlay_with_active(m, p, b).active[p] == b,
        q != p ==> overlay_with_active(m, p, b).active.dom().contains(q) == m.active.dom().contains(q)
            && overlay_with_active(m, p, b).active[q] == m.active[q],
        overlay_with_targets(m, p, f, t).relationships[(p, f)] == t,
        (q, g) != (p, f) ==> overlay_with_targets(m, p, f, t).relationships.dom().contains((q, g))
            == m.relationships.dom().contains((q, g)) && overlay_with_targets(m, p, f, t).relationships[(q, g)]
            == m.relationships[(q, g)],
{
}

impl<V> StageOverlay<V> {
    #[verifier::type_invariant]
    spec fn keys_distinct(self) -> bool {
        &&& distinct_keys(active_views(self.active_overrides@))
        &&& distinct_keys(field_views(self.attribute_overrides@))
        &&& distinct_keys(relationship_views(self.relationship_overrides@))
    }

    /// No opinions and no edit target.
    pub fn new() -> (r: Self)
        ensures
            r@.edit_target_layer is None,
            r@.active == Map::<Seq<char>, bool>::empty(),
            r@.fields == Map::<(Option<Seq<char>>, Seq<char>, Seq<char>), V>::empty(),
            r@.relationships == Map::<(Seq<char>, Seq<char>), Seq<Seq<char>>>::empty(),
    {
        let r = StageOverlay {
            edit_target_layer: None,
            active_overrides: Vec::new(),
            attribute_overrides: Vec::new(),
            relationship_overrides: Vec::new(),
        };
        proof {
            assert(active_views(r.active_overrides@) =~= Seq::empty());
            assert(field_views(r.attribute_overrides@) =~= Seq::empty());
            assert(relationship_views(r.relationship_overrides@) =~= Seq::empty());
            lemma_empty_entries::<Seq<char>, bool>();
            lemma_empty_entries::<(Option<Seq<char>>, Seq<char>, Seq<char>), V>();
            lemma_empty_entries::<(Seq<char>, Seq<char>), Seq<Seq<char>>>();
        }
        r
    }

    pub fn edit_target_layer(&self) -> (r: Option<String>)
        ensures
            opt_text(r) == self@.edit_target_layer,
    {
        copy_opt_text(&self.edit_target_layer)
    }

    /// Scope later field opinions to `layer`.
    pub fn set_edit_target_layer(&mut self, layer: Option<String>)
        ensures
            final(self)@.edit_target_layer == opt_text(layer),
            final(self)@.active == old(self)@.active,
            final(self)@.fields == old(self)@.fields,
            final(self)@.relationships == old(self)@.relationships,
    {
        proof {
            use_type_invariant(&*self);
        }
        self.edit_target_layer = layer;
    }

    fn active_index(&self, prim_path: &String) -> (r: Option<usize>)
        ensures
            match r {
                Some(i) => i < self.active_overrides@.len() && self.active_overrides@[i as int].0@ == prim_path@,
                None => forall|i: int|
                    0 <= i < self.active_overrides@.len() ==> #[trigger] active_views(self.active_overrides@)[i].0
                        != prim_path@,
            },
    {
        let mut i: usize = 0;
        while i < self.active_overrides.len()
            invariant
                i <= self.active_overrides@.len(),
                forall|j: int| 0 <= j < i ==> #[trigger] active_views(self.active_overrides@)[j].0 != prim_path@,
            decreases self.active_overrides.len() - i,
        {
            if self.active_overrides[i].0 == *prim_path {
                return Some(i);
            }
            i = i + 1;
        }
        None
    }

    /// The `active` opinion held for a prim, if any.
    pub fn active_override(&self, prim_path: &str) -> (r: Option<bool>)
        ensures
            match r {
                Some(b) => self@.active.dom().contains(prim_path@) && self@.active[prim_path@] == b,
                None => !self@.active.dom().contains(prim_path@),
            },
    {
        proof {
            use_type_invariant(self);
            lemma_find_last_distinct(active_views(self.active_overrides@), prim_path@);
        }
        match self.active_index(&prim_path.to_owned()) {
            Some(i) => {
                assert(active_views(self.active_overrides@)[i as int].0 == prim_path@);
                Some(self.active_overrides[i].1)
            },
            None => None,
        }
    }

    /// Record an `active` opinion for a prim.
    pub fn set_prim_active(&mut self, prim_path: &str, active: bool)
        ensures
            final(self)@.active == overlay_with_active(old(self)@, prim_path@, active).active,
            final(self)@.edit_target_layer == old(self)@.edit_target_layer,
            final(self)@.fields == old(self)@.fields,
            final(self)@.relationships == old(self)@.relationships,
    {
        proof {
            use_type_invariant(&*self);
        }
        let key = prim_path.to_owned();
        let found = self.active_index(&key);
        let mut es: Vec<(String, bool)> = Vec::new();
        std::mem::swap(&mut es, &mut self.active_overrides);
        let ghost before = active_views(es@);
        match found {
            Some(i) => {
                es.set(i, (key, active));
                proof {
                    assert(before[i as int].0 == prim_path@);
                    assert(active_views(es@) =~= before.update(i as int, (before[i as int].0, active)));
                    lemma_entries_update(before, i as int, active);
                }
            },
            None => {
                es.push((key, active));
                proof {
                    assert(active_views(es@) =~= before.push((prim_path@, active)));
                    lemma_entries_push(before, prim_path@, active);
                }
            },
        }
        self.active_overrides = es;
    }

    fn field_index(&self, key: &AttributeFieldKey) -> (r: Option<usize>)
        ensures
            match r {
                Some(i) => i < self.attribute_overrides@.len() && field_views(self.attribute_overrides@)[i as int].0
                    == field_key_view(*key),
                None => forall|i: int|
                    0 <= i < self.attribute_overrides@.len() ==> #[trigger] field_views(
                        self.attribute_overrides@,
                    )[i].0 != field_key_view(*key),
            },
    {
        let mut i: usize = 0;
        while i < self.attribute_overrides.len()
            invariant
                i <= self.attribute_overrides@.len(),
                forall|j: int|
                    0 <= j < i ==> #[trigger] field_views(self.attribute_overrides@)[j].0 != field_key_view(*key),
            decreases self.attribute_overrides.len() - i,
        {
            let k = &self.attribute_overrides[i].0;
            if opt_text_eq(&k.edit_layer, &key.edit_layer) && k.property_path == key.property_path
                && k.field == key.field {
                return Some(i);
            }
            i = i + 1;
        }
        None
    }

    fn field_opinion(&self, key: &AttributeFieldKey) -> (r: Option<&V>)
        ensures
            match r {
                Some(v) => self@.fields.dom().contains(field_key_view(*key)) && self@.fields[field_key_view(*key)] == *v,
                None => !self@.fields.dom().contains(field_key_view(*key)),
            },
    {
        proof {
            use_type_invariant(self);
            lemma_find_last_distinct(field_views(self.attribute_overrides@), field_key_view(*key));
        }
        match self.field_index(key) {
            Some(i) => Some(&self.attribute_overrides[i].1),
            None => None,
        }
    }

    /// The field opinion a read finds in the overlay: the one written under
    /// the current edit target, else one written with no edit target.
    pub fn field_override(&self, property_path: &str, field: &str) -> (r: Option<&V>)
        ensures
            match spec_field_override(self@, property_path@, field@) {
                Some(v) => r == Some(&v),
                None => r is None,
            },
    {
        let scoped = AttributeFieldKey {
            edit_layer: copy_opt_text(&self.edit_target_layer),
            property_path: property_path.to_owned(),
            field: field.to_owned(),
        };
        match self.field_opinion(&scoped) {
            Some(v) => Some(v),
            None => {
                let unscoped = AttributeFieldKey {
                    edit_layer: None,
                    property_path: property_path.to_owned(),
                    field: field.to_owned(),
                };
                self.field_opinion(&unscoped)
            },
        }
    }

    /// Record a field opinion under the current edit target.
    pub fn set_field(&mut self, property_path: &str, field: &str, val: V)
        ensures
            final(self)@.fields == overlay_with_field(old(self)@, property_path@, field@, val).fields,
            final(self)@.edit_target_layer == old(self)@.edit_target_layer,
            final(self)@.active == old(self)@.active,
            final(self)@.relationships == old(self)@.relationships,
    {
        proof {
            use_type_invariant(&*self);
        }
        let key = AttributeFieldKey {
            edit_layer: copy_opt_text(&self.edit_target_layer),
            property_path: property_path.to_owned(),
            field: field.to_owned(),
        };
        let ghost k = field_key_view(key);
        let found = self.field_index(&key);
        let mut es: Vec<(AttributeFieldKey, V)> = Vec::new();
        std::mem::swap(&mut es, &mut self.attribute_overrides);
        let ghost before = field_views(es@);
        match found {
            Some(i) => {
                es.set(i, (key, val));
                proof {
                    assert(field_views(es@) =~= before.update(i as int, (before[i as int].0, val)));
                    lemma_entries_update(before, i as int, val);
                }
            },
            None => {
                es.push((key, val));
                proof {
                    assert(field_views(es@) =~= before.push((k, val)));
                    lemma_entries_push(before, k, val);
                }
            },
        }
        self.attribute_overrides = es;
    }

    fn relationship_index(&self, prim_path: &String, relationship: &String) -> (r: Option<usize>)
        ensures
            match r {
                Some(i) => i < self.relationship_overrides@.len() && relationship_views(self.relationship_overrides@)[i as int].0
                    == (prim_path@, relationship@),
                None => forall|i: int|
                    0 <= i < self.relationship_overrides@.len() ==> #[trigger] relationship_views(
                        self.relationship_overrides@,
                    )[i].0 != (prim_path@, relationship@),
            },
    {
        let mut i: usize = 0;
        while i < self.relationship_overrides.len()
            invariant
                i <= self.relationship_overrides@.len(),
                forall|j: int|
                    0 <= j < i ==> #[trigger] relationship_views(self.relationship_overrides@)[j].0 != (
                        prim_path@,
                        relationship@,
                    ),
            decreases self.relationship_overrides.len() - i,
        {
            let k = &self.relationship_overrides[i].0;
            if k.0 == *prim_path && k.1 == *relationship {
                return Some(i);
            }
            i = i + 1;
        }
        None
    }

    /// The target list held for a relationship, if any.
    pub fn relationship_override(&self, prim_path: &str, relationship: &str) -> (r: Option<&Vec<String>>)
        ensures
            match r {
                Some(t) => self@.relationships.dom().contains((prim_path@, relationship@))
                    && self@.relationships[(prim_path@, relationship@)] == text_views(t@),
                None => !self@.relationships.dom().contains((prim_path@, relationship@)),
            },
    {
        proof {
            use_type_invariant(self);
            lemma_find_last_distinct(relationship_views(self.relationship_overrides@), (prim_path@, relationship@));
        }
        match self.relationship_index(&prim_path.to_owned(), &relationship.to_owned()) {
            Some(i) => Some(&self.relationship_overrides[i].1),
            None => None,
        }
    }

    /// Replace a relationship's target list.
    pub fn set_relationship_targets(&mut self, prim_path: &str, relationship: &str, targets: Vec<String>)
        ensures
            final(self)@.relationships == overlay_with_targets(
                old(self)@,
                prim_path@,
                relationship@,
                text_views(targets@),
            ).relationships,
            final(self)@.edit_target_layer == old(self)@.edit_target_layer,
            final(self)@.active == old(self)@.active,
            final(self)@.fields == old(self)@.fields,
    {
        proof {
            use_type_invariant(&*self);
        }
        let p = prim_path.to_owned();
        let rel = relationship.to_owned();
        let found = self.relationship_index(&p, &rel);
        let ghost k = (p@, rel@);
        let ghost t = text_views(targets@);
        let mut es: Vec<((String, String), Vec<String>)> = Vec::new();
        std::mem::swap(&mut es, &mut self.relationship_overrides);
        let ghost before = relationship_views(es@);
        match found {
            Some(i) => {
                es.set(i, ((p, rel), targets));
                proof {
                    assert(relationship_views(es@) =~= before.update(i as int, (before[i as int].0, t)));
                    lemma_entries_update(before, i as int, t);
                }
            },
            None => {
                es.push(((p, rel), targets));
                proof {
                    assert(relationship_views(es@) =~= before.push((k, t)));
                    lemma_entries_push(before, k, t);
                }
            },
        }
        self.relationship_overrides = es;
    }

    /// How many field opinions the overlay holds.
    pub fn overlay_field_count(&self) -> (r: usize)
        ensures
            self@.fields.dom().finite(),
            r == self@.fields.len(),
    {
        proof {
            use_type_invariant(self);
            lemma_entries_count(field_views(self.attribute_overrides@));
        }
        self.attribute_overrides.len()
    }

    /// How many relationship target lists the overlay holds.
    pub fn relationship_override_count(&self) -> (r: usize)
        ensures
            self@.relationships.dom().finite(),
            r == self@.relationships.len(),
    {
        proof {
            use_type_invariant(self);
            lemma_entries_count(relationship_views(self.relationship_overrides@));
        }
        self.relationship_overrides.len()
    }

    /// Approximate in-memory footprint of the overlay, in KiB.
    pub fn overlay_memory_kib(&self) -> (r: u64)
        ensures
            r == spec_overlay_kib(self@.fields.len(), self@.relationships.len()),
    {
        let fields = self.overlay_field_count() as u128;
        let relationships = self.relationship_override_count() as u128;
        let total = fields * 96 + relationships * 128 + 1023;
        let kib = total / 1024;
        assert(kib < 0x1_0000_0000_0000_0000) by (nonlinear_arith)
            requires
                fields < 0x1_0000_0000_0000_0000,
                relationships < 0x1_0000_0000_0000_0000,
                total == fields * 96 + relationships * 128 + 1023,
                kib == total / 1024,
        ;
        kib as u64
    }
}

} // verus!
