//! Named baselines: saved cost maps that later runs are compared with.

use vstd::prelude::*;
use crate::args::{name_of, BaselineName, CommandLineArgs};
use crate::assoc::{
    has_key, key_index, keys_unique, lemma_keys_count, lemma_map_of_empty, lemma_map_of_index,
    lemma_map_of_push, lemma_map_of_update, map_of,
};
use crate::callgrind_map::{primary_of, CallgrindMap, CallgrindMapModel, IdModel};
use crate::event_kind::EventKind;
use crate::regression::{violations, Regression, RegressionConfig};
use crate::text::same_string;

verus! {

/// The benchmark that a baseline belongs to.
#[derive(Debug, PartialEq, Eq)]
pub struct BenchmarkKey {
    /// The file of the benchmark
    pub file: String,
    /// The group of the benchmark
    pub group: String,
    /// The benchmark function
    pub function: String,
    /// The id of the benchmark within its function
    pub id: Option<String>,
}

/// A benchmark's identity with its texts as sequences of characters.
pub struct KeyModel {
    pub file: Seq<char>,
    pub group: Seq<char>,
    pub function: Seq<char>,
    pub id: Option<Seq<char>>,
}

impl View for BenchmarkKey {
    type V = KeyModel;

    open spec fn view(&self) -> KeyModel {
        KeyModel {
            file: self.file@,
            group: self.group@,
            function: self.function@,
            id: match self.id {
                Some(id) => Some(id@),
                None => None,
            },
        }
    }
}

impl Clone for BenchmarkKey {
    fn clone(&self) -> (r: Self)
        ensures
            r@ == self@,
    {
        BenchmarkKey {
            file: self.file.clone(),
            group: self.group.clone(),
            function: self.function.clone(),
            id: match &self.id {
                Some(id) => Some(id.clone()),
                None => None,
            },
        }
    }
}

impl BenchmarkKey {
    /// Whether both name the same benchmark.
    pub fn same(&self, other: &BenchmarkKey) -> (r: bool)
        ensures
            r == (self@ == other@),
    {
        let ids = match (&self.id, &other.id) {
            (Some(a), Some(b)) => same_string(a, b),
            (None, None) => true,
            _ => false,
        };
        ids && same_string(&self.file, &other.file) && same_string(&self.group, &other.group)
            && same_string(&self.function, &other.function)
    }
}

/// What a baseline is stored under: the benchmark and the baseline's name.
pub type SlotModel = (KeyModel, Seq<char>);

/// What a stored baseline holds: the cost map and the order of its entries.
pub struct StoredModel {
    pub map: CallgrindMapModel,
    pub order: Seq<IdModel>,
}

/// A saved cost map with the benchmark and the name it was saved under.
#[derive(Debug)]
pub struct Baseline {
    pub key: BenchmarkKey,
    pub name: BaselineName,
    pub map: CallgrindMap,
}

/// The stored baselines as entries of slot and content.
pub open spec fn slots(entries: Seq<Baseline>) -> Seq<(SlotModel, StoredModel)> {
    Seq::new(
        entries.len(),
        |i: int|
            (
                (entries[i].key@, entries[i].name@),
                StoredModel { map: entries[i].map@, order: entries[i].map.order() },
            ),
    )
}

/// The baselines of all benchmarks, at most one per benchmark and name.
#[derive(Debug)]
pub struct BaselineStore {
    entries: Vec<Baseline>,
}

impl View for BaselineStore {
    type V = Map<SlotModel, StoredModel>;

    closed spec fn view(&self) -> Map<SlotModel, StoredModel> {
        map_of(slots(self.entries@))
    }
}

/// How a run uses the baselines.
#[derive(Debug)]
pub enum BaselineMode {
    /// Compare with the baseline of this name, then overwrite it.
    Save(BaselineName),
    /// Compare with the baseline of this name and leave it as it is.
    Compare(BaselineName),
    /// Take the baseline `load` as the new data and compare it with
    /// `baseline`; neither is changed.
    Load { load: BaselineName, baseline: BaselineName },
}

impl BaselineMode {
    /// The name of the baseline that the run is compared with.
    pub open spec fn target(&self) -> Seq<char> {
        match self {
            BaselineMode::Save(name) => name@,
            BaselineMode::Compare(name) => name@,
            BaselineMode::Load { baseline, .. } => baseline@,
        }
    }

    /// Whether the run overwrites the baseline it is compared with.
    pub open spec fn overwrites(&self) -> bool {
        self is Save
    }

    /// The name of the baseline that the run is compared with.
    pub fn target_name(&self) -> (r: &BaselineName)
        ensures
            r@ == self.target(),
    {
        match self {
            BaselineMode::Save(name) => name,
            BaselineMode::Compare(name) => name,
            BaselineMode::Load { baseline, .. } => baseline,
        }
    }

    /// How a run with the given options uses the baselines. Without any
    /// baseline option the run is compared with the baseline `default`,
    /// which it then overwrites.
    pub fn from_args(args: &CommandLineArgs) -> (r: BaselineMode)
        ensures
            match r {
                BaselineMode::Save(name) => if args.save_baseline.is_some() {
                    Some(name@) == name_of(args.save_baseline)
                } else {
                    args.baseline.is_none() && name@ == "default"@
                },
                BaselineMode::Compare(name) => args.save_baseline.is_none()
                    && args.load_baseline.is_none() && Some(name@) == name_of(args.baseline),
                BaselineMode::Load { load, baseline } => args.save_baseline.is_none() && Some(load@)
                    == name_of(args.load_baseline) && Some(baseline@) == name_of(args.baseline),
            },
    {
        match &args.save_baseline {
            Some(name) => BaselineMode::Save(name.clone()),
            None => match &args.baseline {
                Some(baseline) => match &args.load_baseline {
                    Some(load) => BaselineMode::Load {
                        load: load.clone(),
                        baseline: baseline.clone(),
                    },
                    None => BaselineMode::Compare(baseline.clone()),
                },
                None => BaselineMode::Save(BaselineName::default_name()),
            },
        }
    }
}

/// The regressions of a run against what is stored for its benchmark under
/// `target`: none where nothing is stored there.
pub open spec fn regressions_against(
    store: Map<SlotModel, StoredModel>,
    key: KeyModel,
    target: Seq<char>,
    limits: Seq<(EventKind, crate::percent::Percent)>,
    new: StoredModel,
) -> Seq<Regression> {
    if store.dom().contains((key, target)) {
        let old = store[(key, target)];
        violations(limits, primary_of(old.map, old.order), primary_of(new.map, new.order))
    } else {
        Seq::empty()
    }
}

impl BaselineStore {
    #[verifier::type_invariant]
    spec fn unique(&self) -> bool {
        keys_unique(slots(self.entries@))
    }

    /// A store without baselines.
    pub fn new() -> (r: Self)
        ensures
            r@ == Map::<SlotModel, StoredModel>::empty(),
    {
        let r = BaselineStore { entries: Vec::new() };
        proof {
            lemma_map_of_empty::<SlotModel, StoredModel>();
            assert(slots(r.entries@) =~= Seq::empty());
        }
        r
    }

    /// How many baselines are stored.
    pub closed spec fn count(&self) -> nat {
        self.entries@.len()
    }

    /// How many baselines are stored.
    pub fn len(&self) -> (r: usize)
        ensures
            r == self.count(),
            r == self@.dom().len(),
    {
        proof {
            use_type_invariant(self);
            lemma_keys_count(slots(self.entries@));
        }
        self.entries.len()
    }

    /// The stored baseline at position `index`.
    pub fn baseline(&self, index: usize) -> (r: &Baseline)
        requires
            index < self.count(),
        ensures
            self@.dom().contains((r.key@, r.name@)),
            self@[(r.key@, r.name@)].map == r.map@,
    {
        proof {
            use_type_invariant(self);
            lemma_map_of_index(slots(self.entries@), index as int);
        }
        &self.entries[index]
    }

    fn position(&self, key: &BenchmarkKey, name: &BaselineName) -> (r: Option<usize>)
        ensures
            match r {
                Some(i) => i < self.entries@.len() && slots(self.entries@)[i as int].0 == (
                    key@,
                    name@,
                ),
                None => !has_key(slots(self.entries@), (key@, name@)),
            },
    {
        let mut i: usize = 0;
        while i < self.entries.len()
            invariant
                i <= self.entries.len(),
                forall|j: int| 0 <= j < i ==> slots(self.entries@)[j].0 != (key@, name@),
            decreases self.entries.len() - i,
        {
            let entry = &self.entries[i];
            if entry.key.same(key) && entry.name.same(name) {
                return Some(i);
            }
            i += 1;
        }
        proof {
            if has_key(slots(self.entries@), (key@, name@)) {
                let j = key_index(slots(self.entries@), (key@, name@));
                assert(slots(self.entries@)[j].0 == (key@, name@));
            }
        }
        None
    }

    /// The cost map saved for the benchmark under `name`, if there is one.
    pub fn load(&self, key: &BenchmarkKey, name: &BaselineName) -> (r: Option<&CallgrindMap>)
        ensures
            match r {
                Some(map) => self@.dom().contains((key@, name@)) && self@[(key@, name@)] == (
                StoredModel { map: map@, order: map.order() }),
                None => !self@.dom().contains((key@, name@)),
            },
    {
        proof {
            use_type_invariant(self);
        }
        match self.position(key, name) {
            Some(i) => {
                proof {
                    lemma_map_of_index(slots(self.entries@), i as int);
                }
                Some(&self.entries[i].map)
            },
            None => None,
        }
    }

    /// Saves the cost map for the benchmark under `name`, in place of what
    /// was saved there before.
    pub fn save(&mut self, key: BenchmarkKey, name: BaselineName, map: CallgrindMap)
        ensures
            final(self)@ == old(self)@.insert(
                (key@, name@),
                StoredModel { map: map@, order: map.order() },
            ),
    {
        proof {
            use_type_invariant(&*self);
            lemma_map_of_empty::<SlotModel, StoredModel>();
        }
        let ghost before = slots(self.entries@);
        let ghost stored = StoredModel { map: map@, order: map.order() };
        let found = self.position(&key, &name);
        let mut entries: Vec<Baseline> = Vec::new();
        assert(slots(entries@) =~= Seq::empty());
        std::mem::swap(&mut self.entries, &mut entries);
        match found {
            Some(i) => {
                proof {
                    lemma_map_of_update(before, i as int, stored);
                }
                entries[i] = Baseline { key, name, map };
                assert(slots(entries@) =~= before.update(i as int, (before[i as int].0, stored)));
            },
            None => {
                proof {
                    lemma_map_of_push(before, (key@, name@), stored);
                }
                entries.push(Baseline { key, name, map });
                assert(slots(entries@) =~= before.push(((key@, name@), stored)));
            },
        }
        std::mem::swap(&mut self.entries, &mut entries);
    }

    /// Compares the new cost map of a benchmark with the baseline that the
    /// mode names, and saves it in place of that baseline where the mode is
    /// to save: whatever the comparison found.
    pub fn compare_and_store(
        &mut self,
        key: BenchmarkKey,
        mode: &BaselineMode,
        config: &RegressionConfig,
        new: CallgrindMap,
    ) -> (r: Vec<Regression>)
        requires
            config.wf(),
        ensures
            r@ == regressions_against(
                old(self)@,
                key@,
                mode.target(),
                config.limits@,
                StoredModel { map: new@, order: new.order() },
            ),
            final(self)@ == (if mode.overwrites() {
                old(self)@.insert(
                    (key@, mode.target()),
                    StoredModel { map: new@, order: new.order() },
                )
            } else {
                old(self)@
            }),
    {
        let found = match self.load(&key, mode.target_name()) {
            Some(old_map) => {
                let before = old_map.primary();
                let after = new.primary();
                config.check(&before, &after)
            },
            None => Vec::new(),
        };
        match mode {
            BaselineMode::Save(name) => {
                self.save(key, name.clone(), new);
            },
            _ => {},
        }
        found
    }
}

} // verus!
