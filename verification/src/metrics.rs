//! Counts per performance counter, with element-wise saturating addition.

use vstd::prelude::*;
use vstd::std_specs::cmp::PartialEqSpecImpl;
use crate::assoc::{
    has_key, key_index, keys_unique, with_keys, lemma_map_of_empty, lemma_map_of_index, lemma_map_of_push,
    lemma_map_of_take, lemma_map_of_update, map_of,
};
use crate::event_kind::EventKind;

verus! {

/// The sum of two counts, held at the largest 64-bit value where it would pass it.
pub open spec fn sat_add(a: u64, b: u64) -> u64 {
    if a + b > u64::MAX {
        u64::MAX
    } else {
        (a + b) as u64
    }
}

/// The count recorded for `kind`; a counter that is absent counts as zero.
pub open spec fn count(m: Map<EventKind, u64>, kind: EventKind) -> u64 {
    if m.dom().contains(kind) {
        m[kind]
    } else {
        0
    }
}

/// The counts of `m` with `amount` added to the count of `kind`.
pub open spec fn with_added(m: Map<EventKind, u64>, kind: EventKind, amount: u64) -> Map<
    EventKind,
    u64,
> {
    m.insert(kind, sat_add(count(m, kind), amount))
}

/// The element-wise sum: every counter of either side, with the two counts added.
pub open spec fn sum(a: Map<EventKind, u64>, b: Map<EventKind, u64>) -> Map<EventKind, u64> {
    Map::new(
        |k: EventKind| a.dom().contains(k) || b.dom().contains(k),
        |k: EventKind| sat_add(count(a, k), count(b, k)),
    )
}

/// Saturating addition does not depend on the order of its operands.
pub proof fn lemma_sat_add_laws(a: u64, b: u64, c: u64)
    ensures
        sat_add(a, b) == sat_add(b, a),
        sat_add(sat_add(a, b), c) == sat_add(a, sat_add(b, c)),
        sat_add(a, 0) == a,
{
}

/// Element-wise addition is commutative.
pub proof fn lemma_sum_commutative(a: Map<EventKind, u64>, b: Map<EventKind, u64>)
    ensures
        sum(a, b) == sum(b, a),
{
    assert(sum(a, b) =~= sum(b, a));
}

/// Element-wise addition is associative.
pub proof fn lemma_sum_associative(
    a: Map<EventKind, u64>,
    b: Map<EventKind, u64>,
    c: Map<EventKind, u64>,
)
    ensures
        sum(sum(a, b), c) == sum(a, sum(b, c)),
{
    assert forall|k: EventKind|
        sum(sum(a, b), c).dom().contains(k) implies #[trigger] sum(sum(a, b), c)[k] == sum(
        a,
        sum(b, c),
    )[k] by {
        lemma_sat_add_laws(count(a, k), count(b, k), count(c, k));
    }
    assert(sum(sum(a, b), c) =~= sum(a, sum(b, c)));
}

/// Adding nothing changes nothing.
pub proof fn lemma_sum_empty(a: Map<EventKind, u64>)
    ensures
        sum(a, Map::empty()) == a,
        sum(Map::empty(), a) == a,
{
    assert(sum(a, Map::empty()) =~= a);
    assert(sum(Map::empty(), a) =~= a);
}

/// Adding a map that holds one more counter adds that counter's count last.
pub proof fn lemma_sum_insert(
    a: Map<EventKind, u64>,
    b: Map<EventKind, u64>,
    kind: EventKind,
    amount: u64,
)
    requires
        !b.dom().contains(kind),
    ensures
        sum(a, b.insert(kind, amount)) == with_added(sum(a, b), kind, amount),
{
    assert(sum(a, b.insert(kind, amount)) =~= with_added(sum(a, b), kind, amount));
}

/// Counts per performance counter, kept in the order in which the counters
/// were first recorded.
#[derive(Debug)]
pub struct Metrics {
    entries: Vec<(EventKind, u64)>,
}

impl View for Metrics {
    type V = Map<EventKind, u64>;

    closed spec fn view(&self) -> Map<EventKind, u64> {
        map_of(self.entries@)
    }
}

impl Clone for Metrics {
    fn clone(&self) -> (r: Self)
        ensures
            r@ == self@,
            r.order() == self.order(),
            r.listing() == self.listing(),
    {
        proof {
            use_type_invariant(self);
        }
        let mut entries: Vec<(EventKind, u64)> = Vec::new();
        let mut i: usize = 0;
        while i < self.entries.len()
            invariant
                i <= self.entries.len(),
                entries@ == self.entries@.take(i as int),
            decreases self.entries.len() - i,
        {
            entries.push(self.entries[i]);
            i += 1;
            assert(entries@ =~= self.entries@.take(i as int));
        }
        assert(self.entries@.take(self.entries.len() as int) =~= self.entries@);
        Metrics { entries }
    }
}

impl PartialEq for Metrics {
    fn eq(&self, other: &Self) -> (r: bool) {
        self.same_counts(other)
    }
}

impl Eq for Metrics {

}

/// Two sets of counts are equal when they hold the same counters with the
/// same counts, in whatever order these were recorded.
impl PartialEqSpecImpl for Metrics {
    open spec fn obeys_eq_spec() -> bool {
        true
    }

    open spec fn eq_spec(&self, other: &Self) -> bool {
        self@ == other@
    }
}

impl Default for Metrics {
    fn default() -> (r: Self)
        ensures
            r@ == Map::<EventKind, u64>::empty(),
    {
        Metrics::new()
    }
}

impl Metrics {
    #[verifier::type_invariant]
    spec fn unique(&self) -> bool {
        keys_unique(self.entries@)
    }

    /// The counters in the order in which they were first recorded.
    pub closed spec fn order(&self) -> Seq<EventKind> {
        Seq::new(self.entries@.len(), |i: int| self.entries@[i].0)
    }

    /// The counters in recording order are exactly the counters that the map holds,
    /// each once.
    proof fn lemma_order(&self)
        requires
            keys_unique(self.entries@),
        ensures
            forall|k: EventKind| self@.dom().contains(k) <==> self.order().contains(k),
            self.order().no_duplicates(),
            self.order().to_set().len() == self.order().len(),
    {
        let s = self.entries@;
        assert forall|k: EventKind| self@.dom().contains(k) <==> self.order().contains(k) by {
            if self@.dom().contains(k) {
                let i = key_index(s, k);
                assert(self.order()[i] == k);
            }
            if self.order().contains(k) {
                let i = choose|i: int| 0 <= i < self.order().len() && self.order()[i] == k;
                assert(s[i].0 == k);
            }
        }
        self.order().unique_seq_to_set();
    }

    /// No counts.
    pub fn new() -> (r: Self)
        ensures
            r@ == Map::<EventKind, u64>::empty(),
            r.order() == Seq::<EventKind>::empty(),
    {
        let r = Metrics { entries: Vec::new() };
        proof {
            lemma_map_of_empty::<EventKind, u64>();
            assert(r.order() =~= Seq::<EventKind>::empty());
        }
        r
    }

    /// How many counters are recorded.
    pub fn len(&self) -> (r: usize)
        ensures
            r == self.order().len(),
            r == self@.dom().len(),
    {
        proof {
            use_type_invariant(self);
            crate::assoc::lemma_keys_count(self.entries@);
        }
        self.entries.len()
    }

    /// Whether no counter is recorded.
    pub fn is_empty(&self) -> (r: bool)
        ensures
            r == (self.order().len() == 0),
            r == (self@ == Map::<EventKind, u64>::empty()),
    {
        proof {
            use_type_invariant(self);
            if self.entries@.len() == 0 {
                assert(self.entries@ =~= Seq::empty());
                lemma_map_of_empty::<EventKind, u64>();
            } else {
                lemma_map_of_index(self.entries@, 0);
            }
        }
        self.entries.len() == 0
    }

    /// The position of `kind` among the entries, if it is recorded.
    fn position(&self, kind: EventKind) -> (r: Option<usize>)
        ensures
            match r {
                Some(i) => i < self.entries@.len() && self.entries@[i as int].0 == kind,
                None => !has_key(self.entries@, kind),
            },
    {
        let mut i: usize = 0;
        while i < self.entries.len()
            invariant
                i <= self.entries.len(),
                forall|j: int| 0 <= j < i ==> self.entries@[j].0 != kind,
            decreases self.entries.len() - i,
        {
            if self.entries[i].0 == kind {
                return Some(i);
            }
            i += 1;
        }
        None
    }

    /// The count recorded for `kind`, if any.
    pub fn get(&self, kind: EventKind) -> (r: Option<u64>)
        ensures
            r == (if self@.dom().contains(kind) {
                Some(self@[kind])
            } else {
                None
            }),
    {
        proof {
            use_type_invariant(self);
        }
        match self.position(kind) {
            Some(i) => {
                proof {
                    lemma_map_of_index(self.entries@, i as int);
                }
                Some(self.entries[i].1)
            },
            None => None,
        }
    }

    /// The count of `kind`; zero where the counter is not recorded.
    pub fn value_of(&self, kind: EventKind) -> (r: u64)
        ensures
            r == count(self@, kind),
    {
        match self.get(kind) {
            Some(v) => v,
            None => 0,
        }
    }

    /// The counter recorded at position `index` and its count.
    pub fn entry(&self, index: usize) -> (r: (EventKind, u64))
        requires
            index < self.order().len(),
        ensures
            r.0 == self.order()[index as int],
            self@.dom().contains(r.0),
            r.1 == self@[r.0],
    {
        proof {
            use_type_invariant(self);
            lemma_map_of_index(self.entries@, index as int);
        }
        self.entries[index]
    }

    /// Adds `amount` to the count of `kind`, recording the counter if it is new.
    pub fn add_value(&mut self, kind: EventKind, amount: u64)
        ensures
            final(self)@ == with_added(old(self)@, kind, amount),
            final(self).order() == (if old(self)@.dom().contains(kind) {
                old(self).order()
            } else {
                old(self).order().push(kind)
            }),
    {
        proof {
            use_type_invariant(&*self);
        }
        let ghost before = self.entries@;
        match self.position(kind) {
            Some(i) => {
                let current: u64 = self.entries[i].1;
                let total: u64 = current.saturating_add(amount);
                proof {
                    lemma_map_of_index(before, i as int);
                    lemma_map_of_update(before, i as int, total);
                    lemma_map_of_empty::<EventKind, u64>();
                }
                let mut entries: Vec<(EventKind, u64)> = Vec::new();
                std::mem::swap(&mut self.entries, &mut entries);
                entries[i] = (kind, total);
                std::mem::swap(&mut self.entries, &mut entries);
                assert(self.order() =~= old(self).order());
            },
            None => {
                proof {
                    lemma_map_of_push(before, kind, amount);
                    lemma_map_of_empty::<EventKind, u64>();
                }
                let mut entries: Vec<(EventKind, u64)> = Vec::new();
                std::mem::swap(&mut self.entries, &mut entries);
                entries.push((kind, amount));
                std::mem::swap(&mut self.entries, &mut entries);
                assert(self.order() =~= old(self).order().push(kind));
            },
        }
    }

    /// Adds the counts of `other` element-wise. The counters keep their
    /// order; those that are new come after them, in the order of `other`.
    pub fn add(&mut self, other: &Metrics)
        ensures
            final(self)@ == sum(old(self)@, other@),
            final(self).order() == with_keys(
                old(self).order(),
                other.order(),
                other.order().len() as int,
            ),
    {
        proof {
            use_type_invariant(other);
            lemma_map_of_empty::<EventKind, u64>();
            lemma_sum_empty(self@);
            assert(other.entries@.take(0) =~= Seq::empty());
        }
        let mut i: usize = 0;
        while i < other.entries.len()
            invariant
                i <= other.entries.len(),
                keys_unique(other.entries@),
                self@ == sum(old(self)@, map_of(other.entries@.take(i as int))),
                self.order() == with_keys(old(self).order(), other.order(), i as int),
            decreases other.entries.len() - i,
        {
            let (kind, amount) = other.entries[i];
            proof {
                lemma_map_of_take(other.entries@, i as int);
                lemma_sum_insert(old(self)@, map_of(other.entries@.take(i as int)), kind, amount);
                use_type_invariant(&*self);
                self.lemma_order();
                assert(other.order()[i as int] == kind);
            }
            self.add_value(kind, amount);
            i += 1;
        }
        assert(other.entries@.take(other.entries.len() as int) =~= other.entries@);
    }

    /// Whether both hold the same counters with the same counts.
    pub fn same_counts(&self, other: &Metrics) -> (r: bool)
        ensures
            r == (self@ == other@),
    {
        proof {
            use_type_invariant(self);
            use_type_invariant(other);
        }
        if self.entries.len() != other.entries.len() {
            proof {
                self.lemma_order();
                other.lemma_order();
                if self@ == other@ {
                    assert(self.order().to_set() =~= other.order().to_set());
                }
            }
            return false;
        }
        let mut i: usize = 0;
        while i < self.entries.len()
            invariant
                i <= self.entries.len(),
                self.entries.len() == other.entries.len(),
                keys_unique(self.entries@),
                forall|j: int|
                    0 <= j < i ==> other@.dom().contains(self.entries@[j].0) && other@[self.entries@[j].0]
                        == self.entries@[j].1,
            decreases self.entries.len() - i,
        {
            let (kind, amount) = self.entries[i];
            proof {
                lemma_map_of_index(self.entries@, i as int);
            }
            match other.get(kind) {
                Some(v) => {
                    if v != amount {
                        return false;
                    }
                },
                None => {
                    return false;
                },
            }
            i += 1;
        }
        proof {
            self.lemma_order();
            other.lemma_order();
            // every counter of `self` is in `other` with the same count; both
            // hold equally many counters, so `other` holds no further one
            let a = self.order();
            let b = other.order();
            assert forall|k: EventKind| a.contains(k) implies b.contains(k) by {
                let j = choose|j: int| 0 <= j < a.len() && a[j] == k;
                assert(self.entries@[j].0 == k);
            }
            assert(a.to_set().subset_of(b.to_set()));
            vstd::set_lib::lemma_subset_equality(a.to_set(), b.to_set());
            assert forall|k: EventKind| self@.dom().contains(k) implies self@[k] == other@[k] by {
                let j = key_index(self.entries@, k);
                lemma_map_of_index(self.entries@, j);
            }
            assert(self@.dom() =~= other@.dom()) by {
                assert forall|k: EventKind| self@.dom().contains(k) <==> other@.dom().contains(
                    k,
                ) by {
                    assert(a.to_set().contains(k) <==> b.to_set().contains(k));
                }
            }
            assert(self@ =~= other@);
        }
        true
    }
}

impl Metrics {
    /// The counters with their counts, in recording order.
    pub closed spec fn listing(&self) -> Seq<(EventKind, u64)> {
        self.entries@
    }

    /// The counts are those that the listing stands for.
    pub proof fn lemma_listing(&self)
        ensures
            self@ == map_of(self.listing()),
    {
    }

    /// The counters with their counts, in recording order. No counter occurs
    /// twice, and the list stands for the counts.
    pub fn entries(&self) -> (r: &Vec<(EventKind, u64)>)
        ensures
            r@ == self.listing(),
            keys_unique(r@),
            map_of(r@) == self@,
    {
        proof {
            use_type_invariant(self);
        }
        &self.entries
    }

    /// The counts that a list of counters with their counts stands for;
    /// none where a counter occurs twice.
    pub fn from_entries(entries: Vec<(EventKind, u64)>) -> (r: Option<Metrics>)
        ensures
            match r {
                Some(metrics) => keys_unique(entries@) && metrics.listing() == entries@,
                None => !keys_unique(entries@),
            },
    {
        let mut j: usize = 0;
        while j < entries.len()
            invariant
                j <= entries.len(),
                forall|a: int, b: int| 0 <= a < b < j ==> entries@[a].0 != entries@[b].0,
            decreases entries.len() - j,
        {
            let mut i: usize = 0;
            while i < j
                invariant
                    i <= j < entries.len(),
                    forall|a: int| 0 <= a < i ==> entries@[a].0 != entries@[j as int].0,
                decreases j - i,
            {
                if entries[i].0 == entries[j].0 {
                    return None;
                }
                i += 1;
            }
            j += 1;
        }
        Some(Metrics { entries })
    }
}

} // verus!
