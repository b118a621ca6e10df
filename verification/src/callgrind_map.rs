//! The aggregation container: one entry of counts per cost identity.

use vstd::prelude::*;
use vstd::std_specs::cmp::PartialEqSpecImpl;
use crate::assoc::{
    has_key, key_index, keys_unique, with_keys, lemma_keys_count, lemma_map_of_empty, lemma_map_of_index,
    lemma_map_of_push, lemma_map_of_take, lemma_map_of_update, map_of,
};
use crate::event_kind::EventKind;
use crate::metrics::{lemma_sum_associative, lemma_sum_commutative, lemma_sum_empty, sum, Metrics};
use crate::source_path::{PathModel, SourcePath};
use crate::text::{chars_of, has_prefix, same_string, starts_with};

verus! {

/// The point to which a cost is attributed: object file, source file and
/// function.
#[derive(Debug, Hash, PartialEq, Eq)]
pub struct Id {
    pub obj: Option<SourcePath>,
    pub file: Option<SourcePath>,
    pub func: String,
}

/// A cost identity with its texts as sequences of characters.
pub struct IdModel {
    pub obj: Option<PathModel>,
    pub file: Option<PathModel>,
    pub func: Seq<char>,
}

/// The model of an optional path.
pub open spec fn path_model(path: Option<SourcePath>) -> Option<PathModel> {
    match path {
        Some(p) => Some(p@),
        None => None,
    }
}

impl View for Id {
    type V = IdModel;

    open spec fn view(&self) -> IdModel {
        IdModel { obj: path_model(self.obj), file: path_model(self.file), func: self.func@ }
    }
}

/// Copies an optional path.
pub fn clone_path(path: &Option<SourcePath>) -> (r: Option<SourcePath>)
    ensures
        path_model(r) == path_model(*path),
{
    match path {
        Some(p) => Some(p.clone()),
        None => None,
    }
}

fn same_path(a: &Option<SourcePath>, b: &Option<SourcePath>) -> (r: bool)
    ensures
        r == (path_model(*a) == path_model(*b)),
{
    match a {
        Some(p) => match b {
            Some(q) => p.same(q),
            None => false,
        },
        None => match b {
            Some(_) => false,
            None => true,
        },
    }
}

impl Clone for Id {
    fn clone(&self) -> (r: Self)
        ensures
            r@ == self@,
    {
        Id { obj: clone_path(&self.obj), file: clone_path(&self.file), func: self.func.clone() }
    }
}

impl Id {
    /// Whether both identify the same point: the same object, file and function.
    pub fn same(&self, other: &Id) -> (r: bool)
        ensures
            r == (self@ == other@),
    {
        same_string(&self.func, &other.func) && same_path(&self.obj, &other.obj) && same_path(
            &self.file,
            &other.file,
        )
    }
}

/// The counts aggregated for one identity.
#[derive(Debug)]
pub struct Value {
    pub metrics: Metrics,
}

impl PartialEq for Value {
    fn eq(&self, other: &Self) -> (r: bool) {
        self.metrics.same_counts(&other.metrics)
    }
}

impl Eq for Value {

}

/// Two values are equal when they hold the same counts.
impl PartialEqSpecImpl for Value {
    open spec fn obeys_eq_spec() -> bool {
        true
    }

    open spec fn eq_spec(&self, other: &Self) -> bool {
        self@ == other@
    }
}

impl Default for Value {
    fn default() -> (r: Self)
        ensures
            r@ == Map::<EventKind, u64>::empty(),
    {
        Value { metrics: Metrics::new() }
    }
}

impl View for Value {
    type V = Map<EventKind, u64>;

    open spec fn view(&self) -> Map<EventKind, u64> {
        self.metrics@
    }
}

impl Clone for Value {
    fn clone(&self) -> (r: Self)
        ensures
            r@ == self@,
    {
        Value { metrics: self.metrics.clone() }
    }
}

/// The pattern that picks the function whose cost is of primary interest: a
/// function matches when its name starts with the pattern.
#[derive(Debug, PartialEq, Eq)]
pub struct Sentinel {
    pattern: String,
}

impl View for Sentinel {
    type V = Seq<char>;

    closed spec fn view(&self) -> Seq<char> {
        self.pattern@
    }
}

impl Clone for Sentinel {
    fn clone(&self) -> (r: Self)
        ensures
            r@ == self@,
    {
        Sentinel { pattern: self.pattern.clone() }
    }
}

/// The model of an optional sentinel.
pub open spec fn sentinel_model(sentinel: Option<Sentinel>) -> Option<Seq<char>> {
    match sentinel {
        Some(s) => Some(s@),
        None => None,
    }
}

/// The model of an optional identity.
pub open spec fn id_model(id: Option<Id>) -> Option<IdModel> {
    match id {
        Some(i) => Some(i@),
        None => None,
    }
}

impl Sentinel {
    /// The sentinel with the given pattern.
    pub fn new(pattern: &str) -> (r: Self)
        ensures
            r@ == pattern@,
    {
        Sentinel { pattern: pattern.to_owned() }
    }

    /// The pattern.
    pub fn pattern(&self) -> (r: &String)
        ensures
            r@ == self@,
    {
        &self.pattern
    }

    /// Whether the function name starts with the pattern.
    pub fn matches(&self, func: &str) -> (r: bool)
        ensures
            r == has_prefix(func@, self@),
    {
        let name = chars_of(func);
        let pattern = chars_of(self.pattern.as_str());
        starts_with(&name, &pattern)
    }
}

/// The counts recorded for `id`; none where the identity has no entry.
pub open spec fn counts(m: Map<IdModel, Map<EventKind, u64>>, id: IdModel) -> Map<EventKind, u64> {
    if m.dom().contains(id) {
        m[id]
    } else {
        Map::empty()
    }
}

/// The map with `metrics` added element-wise to the entry of `id`, which is
/// created where it is missing.
pub open spec fn with_cost(
    m: Map<IdModel, Map<EventKind, u64>>,
    id: IdModel,
    metrics: Map<EventKind, u64>,
) -> Map<IdModel, Map<EventKind, u64>> {
    m.insert(id, sum(counts(m, id), metrics))
}

/// The union of the entries of both maps; where both have an entry for an
/// identity, its counts are added element-wise.
pub open spec fn merged(
    a: Map<IdModel, Map<EventKind, u64>>,
    b: Map<IdModel, Map<EventKind, u64>>,
) -> Map<IdModel, Map<EventKind, u64>> {
    Map::new(
        |id: IdModel| a.dom().contains(id) || b.dom().contains(id),
        |id: IdModel| sum(counts(a, id), counts(b, id)),
    )
}

/// Merging does not depend on the order of the two maps.
pub proof fn lemma_merge_commutative(
    a: Map<IdModel, Map<EventKind, u64>>,
    b: Map<IdModel, Map<EventKind, u64>>,
)
    ensures
        merged(a, b) == merged(b, a),
{
    assert forall|id: IdModel| merged(a, b).dom().contains(id) implies #[trigger] merged(a, b)[id]
        == merged(b, a)[id] by {
        lemma_sum_commutative(counts(a, id), counts(b, id));
    }
    assert(merged(a, b) =~= merged(b, a));
}

/// Merging three maps gives the same map however the merges are grouped.
pub proof fn lemma_merge_associative(
    a: Map<IdModel, Map<EventKind, u64>>,
    b: Map<IdModel, Map<EventKind, u64>>,
    c: Map<IdModel, Map<EventKind, u64>>,
)
    ensures
        merged(merged(a, b), c) == merged(a, merged(b, c)),
{
    assert forall|id: IdModel|
        merged(merged(a, b), c).dom().contains(id) implies #[trigger] merged(merged(a, b), c)[id]
        == merged(a, merged(b, c))[id] by {
        lemma_sum_associative(counts(a, id), counts(b, id), counts(c, id));
        lemma_sum_empty(Map::empty());
    }
    assert(merged(merged(a, b), c) =~= merged(a, merged(b, c)));
}

/// Merging with a map without entries changes nothing.
pub proof fn lemma_merge_empty(a: Map<IdModel, Map<EventKind, u64>>)
    ensures
        merged(a, Map::empty()) == a,
        merged(Map::empty(), a) == a,
{
    assert forall|id: IdModel| a.dom().contains(id) implies #[trigger] merged(a, Map::empty())[id]
        == a[id] && merged(Map::empty(), a)[id] == a[id] by {
        lemma_sum_empty(a[id]);
    }
    assert(merged(a, Map::empty()) =~= a);
    assert(merged(Map::empty(), a) =~= a);
}

/// Merging a map that holds one more entry adds that entry's counts last.
pub proof fn lemma_merge_insert(
    a: Map<IdModel, Map<EventKind, u64>>,
    b: Map<IdModel, Map<EventKind, u64>>,
    id: IdModel,
    metrics: Map<EventKind, u64>,
)
    requires
        !b.dom().contains(id),
    ensures
        merged(a, b.insert(id, metrics)) == with_cost(merged(a, b), id, metrics),
{
    lemma_sum_empty(counts(a, id));
    assert forall|k: IdModel|
        merged(a, b.insert(id, metrics)).dom().contains(k) implies #[trigger] merged(
        a,
        b.insert(id, metrics),
    )[k] == with_cost(merged(a, b), id, metrics)[k] by {
        if k == id {
            lemma_sum_empty(counts(a, id));
        }
    }
    assert(merged(a, b.insert(id, metrics)) =~= with_cost(merged(a, b), id, metrics));
}

/// The entries with identity and counts as models.
pub open spec fn entry_models(entries: Seq<(Id, Value)>) -> Seq<(IdModel, Map<EventKind, u64>)> {
    Seq::new(entries.len(), |i: int| (entries[i].0@, entries[i].1@))
}

/// What a cost map holds: the counts per identity, the sentinel it was made
/// with and the identity that matched it.
pub struct CallgrindMapModel {
    pub map: Map<IdModel, Map<EventKind, u64>>,
    pub sentinel: Option<Seq<char>>,
    pub sentinel_key: Option<IdModel>,
}

/// Aggregated counts per cost identity, with the sentinel pattern and the
/// identity of the function that matched it.
#[derive(Debug)]
pub struct CallgrindMap {
    entries: Vec<(Id, Value)>,
    sentinel: Option<Sentinel>,
    sentinel_key: Option<Id>,
}

impl View for CallgrindMap {
    type V = CallgrindMapModel;

    closed spec fn view(&self) -> CallgrindMapModel {
        CallgrindMapModel {
            map: map_of(entry_models(self.entries@)),
            sentinel: sentinel_model(self.sentinel),
            sentinel_key: id_model(self.sentinel_key),
        }
    }
}

impl PartialEq for CallgrindMap {
    fn eq(&self, other: &Self) -> (r: bool) {
        self.same_content(other)
    }
}

impl Eq for CallgrindMap {

}

/// Two maps are equal when they hold the same counts for the same
/// identities, in whatever order, and agree in sentinel and sentinel key.
impl PartialEqSpecImpl for CallgrindMap {
    open spec fn obeys_eq_spec() -> bool {
        true
    }

    open spec fn eq_spec(&self, other: &Self) -> bool {
        self@ == other@
    }
}

impl Default for CallgrindMap {
    fn default() -> (r: Self)
        ensures
            r@.map == Map::<IdModel, Map<EventKind, u64>>::empty(),
            r@.sentinel.is_none(),
            r@.sentinel_key.is_none(),
    {
        CallgrindMap::new(None)
    }
}

impl Clone for CallgrindMap {
    fn clone(&self) -> (r: Self)
        ensures
            r@ == self@,
            r.listing() == self.listing(),
    {
        proof {
            use_type_invariant(self);
        }
        let mut entries: Vec<(Id, Value)> = Vec::new();
        let mut i: usize = 0;
        while i < self.entries.len()
            invariant
                i <= self.entries.len(),
                entries@.len() == i,
                forall|j: int|
                    0 <= j < i ==> entries@[j].0@ == self.entries@[j].0@ && entries@[j].1@
                        == self.entries@[j].1@ && entries@[j].1.metrics.listing()
                        == self.entries@[j].1.metrics.listing(),
            decreases self.entries.len() - i,
        {
            let id = self.entries[i].0.clone();
            let metrics = self.entries[i].1.metrics.clone();
            entries.push((id, Value { metrics }));
            i += 1;
        }
        assert(entry_models(entries@) =~= entry_models(self.entries@));
        assert(entry_listings(entries@) =~= entry_listings(self.entries@));
        let sentinel = match &self.sentinel {
            Some(s) => Some(s.clone()),
            None => None,
        };
        let sentinel_key = match &self.sentinel_key {
            Some(k) => Some(k.clone()),
            None => None,
        };
        CallgrindMap { entries, sentinel, sentinel_key }
    }
}

impl CallgrindMap {
    #[verifier::type_invariant]
    spec fn unique(&self) -> bool {
        keys_unique(entry_models(self.entries@))
    }

    /// The identities in the order in which they were first recorded.
    pub closed spec fn order(&self) -> Seq<IdModel> {
        Seq::new(self.entries@.len(), |i: int| self.entries@[i].0@)
    }

    /// The identities in recording order are the identities that the map holds.
    proof fn lemma_order_keys(&self)
        ensures
            forall|k: IdModel| self@.map.dom().contains(k) <==> self.order().contains(k),
    {
        let models = entry_models(self.entries@);
        assert forall|k: IdModel| self@.map.dom().contains(k) <==> self.order().contains(k) by {
            if self@.map.dom().contains(k) {
                let i = key_index(models, k);
                assert(self.order()[i] == k);
            }
            if self.order().contains(k) {
                let i = choose|i: int| 0 <= i < self.order().len() && self.order()[i] == k;
                assert(models[i].0 == k);
            }
        }
    }

    /// A map without entries, made with the given sentinel.
    pub fn new(sentinel: Option<Sentinel>) -> (r: Self)
        ensures
            r@.map == Map::<IdModel, Map<EventKind, u64>>::empty(),
            r@.sentinel == sentinel_model(sentinel),
            r@.sentinel_key.is_none(),
            r.order() == Seq::<IdModel>::empty(),
    {
        let r = CallgrindMap { entries: Vec::new(), sentinel, sentinel_key: None };
        proof {
            lemma_map_of_empty::<IdModel, Map<EventKind, u64>>();
            assert(entry_models(r.entries@) =~= Seq::empty());
            assert(r.order() =~= Seq::<IdModel>::empty());
        }
        r
    }

    /// How many identities have an entry.
    pub fn len(&self) -> (r: usize)
        ensures
            r == self.order().len(),
            r == self@.map.dom().len(),
    {
        proof {
            use_type_invariant(self);
            lemma_keys_count(entry_models(self.entries@));
        }
        self.entries.len()
    }

    /// Whether no identity has an entry.
    pub fn is_empty(&self) -> (r: bool)
        ensures
            r == (self@.map == Map::<IdModel, Map<EventKind, u64>>::empty()),
            r == (self.order().len() == 0),
    {
        proof {
            use_type_invariant(self);
            let models = entry_models(self.entries@);
            if models.len() == 0 {
                assert(models =~= Seq::empty());
                lemma_map_of_empty::<IdModel, Map<EventKind, u64>>();
            } else {
                lemma_map_of_index(models, 0);
            }
        }
        self.entries.len() == 0
    }

    /// The sentinel that the map was made with.
    pub fn sentinel(&self) -> (r: &Option<Sentinel>)
        ensures
            sentinel_model(*r) == self@.sentinel,
    {
        &self.sentinel
    }

    /// The identity of the function that matched the sentinel.
    pub fn sentinel_key(&self) -> (r: &Option<Id>)
        ensures
            id_model(*r) == self@.sentinel_key,
    {
        &self.sentinel_key
    }

    /// Records the identity that matched the sentinel.
    pub fn set_sentinel_key(&mut self, key: Option<Id>)
        ensures
            final(self)@.map == old(self)@.map,
            final(self)@.sentinel == old(self)@.sentinel,
            final(self)@.sentinel_key == id_model(key),
            final(self).order() == old(self).order(),
    {
        proof {
            use_type_invariant(&*self);
        }
        let mut slot = key;
        std::mem::swap(&mut self.sentinel_key, &mut slot);
    }

    /// The entry recorded at position `index`.
    pub fn entry(&self, index: usize) -> (r: (&Id, &Value))
        requires
            index < self.order().len(),
        ensures
            r.0@ == self.order()[index as int],
            self@.map.dom().contains(r.0@),
            self@.map[r.0@] == r.1@,
            index < self.listing().entries.len(),
            self.listing().entries[index as int] == (r.0@, r.1.metrics.listing()),
    {
        proof {
            use_type_invariant(self);
            lemma_map_of_index(entry_models(self.entries@), index as int);
        }
        (&self.entries[index].0, &self.entries[index].1)
    }

    fn position(&self, id: &Id) -> (r: Option<usize>)
        ensures
            match r {
                Some(i) => i < self.entries@.len() && self.entries@[i as int].0@ == id@,
                None => !has_key(entry_models(self.entries@), id@),
            },
    {
        let mut i: usize = 0;
        while i < self.entries.len()
            invariant
                i <= self.entries.len(),
                forall|j: int| 0 <= j < i ==> self.entries@[j].0@ != id@,
            decreases self.entries.len() - i,
        {
            if self.entries[i].0.same(id) {
                return Some(i);
            }
            i += 1;
        }
        proof {
            let models = entry_models(self.entries@);
            if has_key(models, id@) {
                let j = key_index(models, id@);
                assert(self.entries@[j].0@ == id@);
            }
        }
        None
    }

    /// The entry of the identity `k`, if there is one.
    pub fn get_key_value(&self, k: &Id) -> (r: Option<(&Id, &Value)>)
        ensures
            match r {
                Some((id, value)) => id@ == k@ && self@.map.dom().contains(k@) && value@
                    == self@.map[k@],
                None => !self@.map.dom().contains(k@),
            },
    {
        proof {
            use_type_invariant(self);
        }
        match self.position(k) {
            Some(i) => {
                proof {
                    lemma_map_of_index(entry_models(self.entries@), i as int);
                }
                Some((&self.entries[i].0, &self.entries[i].1))
            },
            None => None,
        }
    }

    /// Adds `metrics` element-wise to the entry of `id`; a missing entry is
    /// created with these counts.
    pub fn add_cost(&mut self, id: Id, metrics: &Metrics)
        ensures
            final(self)@.map == with_cost(old(self)@.map, id@, metrics@),
            final(self)@.sentinel == old(self)@.sentinel,
            final(self)@.sentinel_key == old(self)@.sentinel_key,
            final(self).order() == (if old(self)@.map.dom().contains(id@) {
                old(self).order()
            } else {
                old(self).order().push(id@)
            }),
    {
        proof {
            use_type_invariant(&*self);
            lemma_map_of_empty::<IdModel, Map<EventKind, u64>>();
        }
        let ghost order = self.order();
        let ghost before = entry_models(self.entries@);
        let found = self.position(&id);
        let mut entries: Vec<(Id, Value)> = Vec::new();
        assert(entry_models(entries@) =~= Seq::empty());
        std::mem::swap(&mut self.entries, &mut entries);
        match found {
            Some(i) => {
                let mut total = entries[i].1.metrics.clone();
                total.add(metrics);
                proof {
                    lemma_map_of_index(before, i as int);
                    lemma_map_of_update(before, i as int, total@);
                }
                entries[i] = (id, Value { metrics: total });
                assert(entry_models(entries@) =~= before.update(
                    i as int,
                    (before[i as int].0, total@),
                ));
                assert(Seq::new(entries@.len(), |j: int| entries@[j].0@) =~= order);
            },
            None => {
                let value = Value { metrics: metrics.clone() };
                proof {
                    lemma_map_of_push(before, id@, metrics@);
                    lemma_sum_empty(metrics@);
                }
                entries.push((id, value));
                assert(entry_models(entries@) =~= before.push((id@, metrics@)));
                assert(Seq::new(entries@.len(), |j: int| entries@[j].0@) =~= order.push(id@));
            },
        }
        std::mem::swap(&mut self.entries, &mut entries);
    }

    /// Merges the entries of `other` into this map: the counts of an identity
    /// that both hold are added element-wise, the other entries are taken over.
    /// The entries keep their order; those that are new come after them, in
    /// the order of `other`.
    pub fn add_mut(&mut self, other: &Self)
        ensures
            final(self)@.map == merged(old(self)@.map, other@.map),
            final(self)@.sentinel == old(self)@.sentinel,
            final(self)@.sentinel_key == old(self)@.sentinel_key,
            final(self).order() == with_keys(
                old(self).order(),
                other.order(),
                other.order().len() as int,
            ),
    {
        let ghost models = entry_models(other.entries@);
        proof {
            use_type_invariant(other);
            lemma_map_of_empty::<IdModel, Map<EventKind, u64>>();
            lemma_merge_empty(self@.map);
            assert(models.take(0) =~= Seq::empty());
        }
        let mut i: usize = 0;
        while i < other.entries.len()
            invariant
                i <= other.entries.len(),
                models == entry_models(other.entries@),
                keys_unique(models),
                self@.map == merged(old(self)@.map, map_of(models.take(i as int))),
                self@.sentinel == old(self)@.sentinel,
                self@.sentinel_key == old(self)@.sentinel_key,
                self.order() == with_keys(old(self).order(), other.order(), i as int),
            decreases other.entries.len() - i,
        {
            let id = other.entries[i].0.clone();
            proof {
                self.lemma_order_keys();
                assert(other.order()[i as int] == id@);
                lemma_map_of_take(models, i as int);
                lemma_merge_insert(
                    old(self)@.map,
                    map_of(models.take(i as int)),
                    id@,
                    other.entries@[i as int].1@,
                );
            }
            self.add_cost(id, &other.entries[i].1.metrics);
            i += 1;
        }
        assert(models.take(other.entries.len() as int) =~= models);
    }
}

/// The element-wise sum of the counts of the first `n` identities of `order`.
pub open spec fn total_of(
    order: Seq<IdModel>,
    map: Map<IdModel, Map<EventKind, u64>>,
    n: int,
) -> Map<EventKind, u64>
    decreases n,
{
    if n <= 0 {
        Map::empty()
    } else {
        sum(total_of(order, map, n - 1), counts(map, order[n - 1]))
    }
}

/// The counts that stand for the whole map: those of the function that
/// matched the sentinel, or the sum over all entries where no function did.
pub open spec fn primary_of(m: CallgrindMapModel, order: Seq<IdModel>) -> Map<EventKind, u64> {
    match m.sentinel_key {
        Some(key) => counts(m.map, key),
        None => total_of(order, m.map, order.len() as int),
    }
}

impl CallgrindMap {
    /// The element-wise sum of the counts of all entries.
    pub fn total(&self) -> (r: Metrics)
        ensures
            r@ == total_of(self.order(), self@.map, self.order().len() as int),
    {
        let mut total = Metrics::new();
        let mut i: usize = 0;
        while i < self.entries.len()
            invariant
                i <= self.entries.len(),
                total@ == total_of(self.order(), self@.map, i as int),
            decreases self.entries.len() - i,
        {
            proof {
                use_type_invariant(self);
                lemma_map_of_index(entry_models(self.entries@), i as int);
            }
            total.add(&self.entries[i].1.metrics);
            i += 1;
        }
        total
    }

    /// The counts that stand for the whole map: those of the function that
    /// matched the sentinel, or the sum over all entries where no function did.
    pub fn primary(&self) -> (r: Metrics)
        ensures
            r@ == primary_of(self@, self.order()),
    {
        match &self.sentinel_key {
            Some(key) => match self.get_key_value(key) {
                Some((_, value)) => value.metrics.clone(),
                None => Metrics::new(),
            },
            None => self.total(),
        }
    }

    /// Whether both maps hold the same counts for the same identities, were
    /// made with the same sentinel and resolved it to the same identity.
    pub fn same_content(&self, other: &CallgrindMap) -> (r: bool)
        ensures
            r == (self@ == other@),
    {
        proof {
            use_type_invariant(self);
            use_type_invariant(other);
        }
        let sentinels = match (&self.sentinel, &other.sentinel) {
            (Some(a), Some(b)) => same_string(&a.pattern, &b.pattern),
            (None, None) => true,
            _ => false,
        };
        let keys = match (&self.sentinel_key, &other.sentinel_key) {
            (Some(a), Some(b)) => a.same(b),
            (None, None) => true,
            _ => false,
        };
        if !sentinels || !keys {
            return false;
        }
        let ghost a = entry_models(self.entries@);
        let ghost b = entry_models(other.entries@);
        if self.entries.len() != other.entries.len() {
            proof {
                lemma_keys_count(a);
                lemma_keys_count(b);
            }
            return false;
        }
        let mut i: usize = 0;
        while i < self.entries.len()
            invariant
                i <= self.entries.len(),
                a == entry_models(self.entries@),
                b == entry_models(other.entries@),
                keys_unique(a),
                keys_unique(b),
                a.len() == b.len(),
                forall|j: int|
                    0 <= j < i ==> map_of(b).dom().contains(a[j].0) && map_of(b)[a[j].0] == a[j].1,
            decreases self.entries.len() - i,
        {
            proof {
                lemma_map_of_index(a, i as int);
            }
            match other.get_key_value(&self.entries[i].0) {
                Some((_, value)) => {
                    if !value.metrics.same_counts(&self.entries[i].1.metrics) {
                        return false;
                    }
                },
                None => {
                    return false;
                },
            }
            i += 1;
        }
        proof {
            lemma_keys_count(a);
            lemma_keys_count(b);
            assert forall|k: IdModel| map_of(a).dom().contains(k) implies map_of(b).dom().contains(
                k,
            ) && map_of(a)[k] == map_of(b)[k] by {
                let j = key_index(a, k);
                lemma_map_of_index(a, j);
            }
            assert(map_of(a).dom().subset_of(map_of(b).dom()));
            vstd::set_lib::lemma_subset_equality(map_of(a).dom(), map_of(b).dom());
            assert(map_of(a) =~= map_of(b));
        }
        true
    }
}

/// What a cost map holds, with the order of its entries and of the counters
/// of each entry.
pub struct MapListing {
    pub entries: Seq<(IdModel, Seq<(EventKind, u64)>)>,
    pub sentinel: Option<Seq<char>>,
    pub sentinel_key: Option<IdModel>,
}

/// The entries with identity as model and counts as list.
pub open spec fn entry_listings(entries: Seq<(Id, Value)>) -> Seq<(IdModel, Seq<(EventKind, u64)>)> {
    Seq::new(entries.len(), |i: int| (entries[i].0@, entries[i].1.metrics.listing()))
}

/// The counts per identity that a listing stands for.
pub open spec fn content_of(listing: MapListing) -> CallgrindMapModel {
    CallgrindMapModel {
        map: map_of(
            Seq::new(
                listing.entries.len(),
                |i: int| (listing.entries[i].0, map_of(listing.entries[i].1)),
            ),
        ),
        sentinel: listing.sentinel,
        sentinel_key: listing.sentinel_key,
    }
}

impl CallgrindMap {
    /// What a map holds is what its listing stands for: maps with the same
    /// listing hold the same.
    pub proof fn lemma_listing(&self)
        ensures
            self@ == content_of(self.listing()),
    {
        let listing = self.listing();
        let models = entry_models(self.entries@);
        let from_listing = Seq::new(
            listing.entries.len(),
            |i: int| (listing.entries[i].0, map_of(listing.entries[i].1)),
        );
        assert forall|i: int| 0 <= i < models.len() implies models[i] == from_listing[i] by {
            self.entries@[i].1.metrics.lemma_listing();
        }
        assert(models =~= from_listing);
    }

    /// The entries in recording order, each with its counters in recording
    /// order, the sentinel and the sentinel key.
    pub closed spec fn listing(&self) -> MapListing {
        MapListing {
            entries: entry_listings(self.entries@),
            sentinel: sentinel_model(self.sentinel),
            sentinel_key: id_model(self.sentinel_key),
        }
    }

    /// The entries in recording order. No identity occurs twice.
    pub fn entries(&self) -> (r: &Vec<(Id, Value)>)
        ensures
            entry_listings(r@) == self.listing().entries,
            keys_unique(entry_listings(r@)),
            self.listing().sentinel == self@.sentinel,
            self.listing().sentinel_key == self@.sentinel_key,
    {
        proof {
            use_type_invariant(self);
            let models = entry_models(self.entries@);
            let lists = entry_listings(self.entries@);
            assert forall|i: int, j: int| 0 <= i < j < lists.len() implies lists[i].0
                != lists[j].0 by {
                assert(models[i].0 == lists[i].0 && models[j].0 == lists[j].0);
            }
        }
        &self.entries
    }

    /// The map with the given entries, sentinel and sentinel key; none where
    /// an identity occurs twice.
    pub fn from_entries(
        entries: Vec<(Id, Value)>,
        sentinel: Option<Sentinel>,
        sentinel_key: Option<Id>,
    ) -> (r: Option<CallgrindMap>)
        ensures
            match r {
                Some(map) => keys_unique(entry_listings(entries@)) && map.listing() == (
                MapListing {
                    entries: entry_listings(entries@),
                    sentinel: sentinel_model(sentinel),
                    sentinel_key: id_model(sentinel_key),
                }),
                None => !keys_unique(entry_listings(entries@)),
            },
    {
        let ghost lists = entry_listings(entries@);
        let mut j: usize = 0;
        while j < entries.len()
            invariant
                j <= entries.len(),
                lists == entry_listings(entries@),
                forall|a: int, b: int| 0 <= a < b < j ==> lists[a].0 != lists[b].0,
            decreases entries.len() - j,
        {
            let mut i: usize = 0;
            while i < j
                invariant
                    i <= j < entries.len(),
                    lists == entry_listings(entries@),
                    forall|a: int| 0 <= a < i ==> lists[a].0 != lists[j as int].0,
                decreases j - i,
            {
                if entries[i].0.same(&entries[j].0) {
                    assert(lists[i as int].0 == lists[j as int].0);
                    return None;
                }
                i += 1;
            }
            j += 1;
        }
        proof {
            let models = entry_models(entries@);
            assert forall|a: int, b: int| 0 <= a < b < models.len() implies models[a].0
                != models[b].0 by {
                assert(models[a].0 == lists[a].0 && models[b].0 == lists[b].0);
            }
        }
        Some(CallgrindMap { entries, sentinel, sentinel_key })
    }
}

/// The maps of a sequence merged into one, from the first to the last.
pub open spec fn merged_all(maps: Seq<Map<IdModel, Map<EventKind, u64>>>) -> Map<
    IdModel,
    Map<EventKind, u64>,
> {
    maps.fold_left(
        Map::empty(),
        |total: Map<IdModel, Map<EventKind, u64>>, next: Map<IdModel, Map<EventKind, u64>>|
            merged(total, next),
    )
}

/// Merging a sequence of maps gives the same map in whatever order the maps
/// come: two sequences that hold the same maps equally often merge to the
/// same map.
pub proof fn lemma_merge_order(
    first: Seq<Map<IdModel, Map<EventKind, u64>>>,
    second: Seq<Map<IdModel, Map<EventKind, u64>>>,
)
    requires
        first.to_multiset() == second.to_multiset(),
    ensures
        merged_all(first) == merged_all(second),
{
    let f = |total: Map<IdModel, Map<EventKind, u64>>, next: Map<IdModel, Map<EventKind, u64>>|
        merged(total, next);
    assert forall|
        x: Map<IdModel, Map<EventKind, u64>>,
        y: Map<IdModel, Map<EventKind, u64>>,
        v: Map<IdModel, Map<EventKind, u64>>,
    | #[trigger] f(f(v, x), y) == f(f(v, y), x) by {
        lemma_merge_associative(v, x, y);
        lemma_merge_commutative(x, y);
        lemma_merge_associative(v, y, x);
    }
    vstd::seq_lib::lemma_fold_left_permutation(first, second, f, Map::empty());
}

} // verus!
