//! The performance counters that the profiler can report.

use vstd::prelude::*;
use crate::text::{chars_of, same_text, to_lower, lowered};

verus! {

/// A performance counter.
#[derive(Clone, Copy, Debug, PartialEq, Eq, Hash, Structural)]
pub enum EventKind {
    /// Instructions executed
    Ir,
    /// Data reads
    Dr,
    /// Data writes
    Dw,
    /// First-level instruction cache read misses
    I1mr,
    /// First-level data cache read misses
    D1mr,
    /// First-level data cache write misses
    D1mw,
    /// Last-level instruction cache read misses
    ILmr,
    /// Last-level data cache read misses
    DLmr,
    /// Last-level data cache write misses
    DLmw,
    /// First-level cache hits (derived)
    L1hits,
    /// Last-level cache hits (derived)
    LLhits,
    /// Main memory hits (derived)
    RamHits,
    /// All reads and writes (derived)
    TotalRW,
    /// Estimated cycles (derived)
    EstimatedCycles,
    /// System calls made
    SysCount,
    /// Time spent in system calls
    SysTime,
    /// Processor time spent in system calls
    SysCpuTime,
    /// Global bus events
    Ge,
    /// Conditional branches executed
    Bc,
    /// Conditional branches mispredicted
    Bcm,
    /// Indirect branches executed
    Bi,
    /// Indirect branches mispredicted
    Bim,
    /// Dirty misses on last-level instruction reads
    ILdmr,
    /// Dirty misses on last-level data reads
    DLdmr,
    /// Dirty misses on last-level data writes
    DLdmw,
    /// Temporal locality counter of the first level
    AcCost1,
    /// Temporal locality counter of the last level
    AcCost2,
    /// Spatial loss counter of the first level
    SpLoss1,
    /// Spatial loss counter of the last level
    SpLoss2,
}

/// Every counter, in declaration order.
pub open spec fn all_kinds() -> Seq<EventKind> {
    seq![
        EventKind::Ir,
        EventKind::Dr,
        EventKind::Dw,
        EventKind::I1mr,
        EventKind::D1mr,
        EventKind::D1mw,
        EventKind::ILmr,
        EventKind::DLmr,
        EventKind::DLmw,
        EventKind::L1hits,
        EventKind::LLhits,
        EventKind::RamHits,
        EventKind::TotalRW,
        EventKind::EstimatedCycles,
        EventKind::SysCount,
        EventKind::SysTime,
        EventKind::SysCpuTime,
        EventKind::Ge,
        EventKind::Bc,
        EventKind::Bcm,
        EventKind::Bi,
        EventKind::Bim,
        EventKind::ILdmr,
        EventKind::DLdmr,
        EventKind::DLdmw,
        EventKind::AcCost1,
        EventKind::AcCost2,
        EventKind::SpLoss1,
        EventKind::SpLoss2,
    ]
}

/// The position of a counter in `all_kinds`.
pub open spec fn kind_index(kind: EventKind) -> int {
    match kind {
        EventKind::Ir => 0,
        EventKind::Dr => 1,
        EventKind::Dw => 2,
        EventKind::I1mr => 3,
        EventKind::D1mr => 4,
        EventKind::D1mw => 5,
        EventKind::ILmr => 6,
        EventKind::DLmr => 7,
        EventKind::DLmw => 8,
        EventKind::L1hits => 9,
        EventKind::LLhits => 10,
        EventKind::RamHits => 11,
        EventKind::TotalRW => 12,
        EventKind::EstimatedCycles => 13,
        EventKind::SysCount => 14,
        EventKind::SysTime => 15,
        EventKind::SysCpuTime => 16,
        EventKind::Ge => 17,
        EventKind::Bc => 18,
        EventKind::Bcm => 19,
        EventKind::Bi => 20,
        EventKind::Bim => 21,
        EventKind::ILdmr => 22,
        EventKind::DLdmr => 23,
        EventKind::DLdmw => 24,
        EventKind::AcCost1 => 25,
        EventKind::AcCost2 => 26,
        EventKind::SpLoss1 => 27,
        EventKind::SpLoss2 => 28,
    }
}

pub proof fn lemma_all_kinds_complete(kind: EventKind)
    ensures
        0 <= kind_index(kind) < all_kinds().len(),
        all_kinds()[kind_index(kind)] == kind,
        all_kinds().len() == 29,
{
}

/// The counters as a vector, in the order of `all_kinds`.
pub fn kinds() -> (r: Vec<EventKind>)
    ensures
        r@ == all_kinds(),
{
    let r = vec![
        EventKind::Ir,
        EventKind::Dr,
        EventKind::Dw,
        EventKind::I1mr,
        EventKind::D1mr,
        EventKind::D1mw,
        EventKind::ILmr,
        EventKind::DLmr,
        EventKind::DLmw,
        EventKind::L1hits,
        EventKind::LLhits,
        EventKind::RamHits,
        EventKind::TotalRW,
        EventKind::EstimatedCycles,
        EventKind::SysCount,
        EventKind::SysTime,
        EventKind::SysCpuTime,
        EventKind::Ge,
        EventKind::Bc,
        EventKind::Bcm,
        EventKind::Bi,
        EventKind::Bim,
        EventKind::ILdmr,
        EventKind::DLdmr,
        EventKind::DLdmw,
        EventKind::AcCost1,
        EventKind::AcCost2,
        EventKind::SpLoss1,
        EventKind::SpLoss2,
    ];
    assert(r@ =~= all_kinds());
    r
}

impl EventKind {
    /// The name under which the profiler writes this counter.
    pub open spec fn name_spec(self) -> Seq<char> {
        match self {
            EventKind::Ir => "Ir"@,
            EventKind::Dr => "Dr"@,
            EventKind::Dw => "Dw"@,
            EventKind::I1mr => "I1mr"@,
            EventKind::D1mr => "D1mr"@,
            EventKind::D1mw => "D1mw"@,
            EventKind::ILmr => "ILmr"@,
            EventKind::DLmr => "DLmr"@,
            EventKind::DLmw => "DLmw"@,
            EventKind::L1hits => "L1hits"@,
            EventKind::LLhits => "LLhits"@,
            EventKind::RamHits => "RamHits"@,
            EventKind::TotalRW => "TotalRW"@,
            EventKind::EstimatedCycles => "EstimatedCycles"@,
            EventKind::SysCount => "sysCount"@,
            EventKind::SysTime => "sysTime"@,
            EventKind::SysCpuTime => "sysCpuTime"@,
            EventKind::Ge => "Ge"@,
            EventKind::Bc => "Bc"@,
            EventKind::Bcm => "Bcm"@,
            EventKind::Bi => "Bi"@,
            EventKind::Bim => "Bim"@,
            EventKind::ILdmr => "ILdmr"@,
            EventKind::DLdmr => "DLdmr"@,
            EventKind::DLdmw => "DLdmw"@,
            EventKind::AcCost1 => "AcCost1"@,
            EventKind::AcCost2 => "AcCost2"@,
            EventKind::SpLoss1 => "SpLoss1"@,
            EventKind::SpLoss2 => "SpLoss2"@,
        }
    }

    /// The name under which the profiler writes this counter.
    pub fn name(self) -> (r: &'static str)
        ensures
            r@ == self.name_spec(),
    {
        match self {
            EventKind::Ir => "Ir",
            EventKind::Dr => "Dr",
            EventKind::Dw => "Dw",
            EventKind::I1mr => "I1mr",
            EventKind::D1mr => "D1mr",
            EventKind::D1mw => "D1mw",
            EventKind::ILmr => "ILmr",
            EventKind::DLmr => "DLmr",
            EventKind::DLmw => "DLmw",
            EventKind::L1hits => "L1hits",
            EventKind::LLhits => "LLhits",
            EventKind::RamHits => "RamHits",
            EventKind::TotalRW => "TotalRW",
            EventKind::EstimatedCycles => "EstimatedCycles",
            EventKind::SysCount => "sysCount",
            EventKind::SysTime => "sysTime",
            EventKind::SysCpuTime => "sysCpuTime",
            EventKind::Ge => "Ge",
            EventKind::Bc => "Bc",
            EventKind::Bcm => "Bcm",
            EventKind::Bi => "Bi",
            EventKind::Bim => "Bim",
            EventKind::ILdmr => "ILdmr",
            EventKind::DLdmr => "DLdmr",
            EventKind::DLdmw => "DLdmw",
            EventKind::AcCost1 => "AcCost1",
            EventKind::AcCost2 => "AcCost2",
            EventKind::SpLoss1 => "SpLoss1",
            EventKind::SpLoss2 => "SpLoss2",
        }
    }

    /// Whether `name` is this counter's name, letter case aside.
    pub open spec fn matches_ignore_case(self, name: Seq<char>) -> bool {
        lowered(self.name_spec()) == lowered(name)
    }

    /// The first counter of `all_kinds` whose name is `name`, letter case aside.
    pub open spec fn named_ignore_case(name: Seq<char>) -> Option<EventKind> {
        Self::first_match(name, true, 0)
    }

    /// The first counter of `all_kinds` whose name is exactly `name`.
    pub open spec fn named(name: Seq<char>) -> Option<EventKind> {
        Self::first_match(name, false, 0)
    }

    /// The first counter at or after position `from` that carries `name`.
    pub open spec fn first_match(name: Seq<char>, ignore_case: bool, from: int) -> Option<
        EventKind,
    >
        decreases all_kinds().len() - from,
    {
        if from < 0 || from >= all_kinds().len() {
            None
        } else if Self::carries(all_kinds()[from], name, ignore_case) {
            Some(all_kinds()[from])
        } else {
            Self::first_match(name, ignore_case, from + 1)
        }
    }

    /// Whether `kind` is called `name`, exactly or letter case aside.
    pub open spec fn carries(kind: EventKind, name: Seq<char>, ignore_case: bool) -> bool {
        if ignore_case {
            kind.matches_ignore_case(name)
        } else {
            kind.name_spec() == name
        }
    }

    fn lookup(name: &Vec<char>, ignore_case: bool) -> (r: Option<EventKind>)
        ensures
            r == Self::first_match(name@, ignore_case, 0),
    {
        let all = kinds();
        let wanted = if ignore_case {
            to_lower(name)
        } else {
            name.clone()
        };
        assert(!ignore_case ==> wanted@ == name@);
        let mut i: usize = 0;
        while i < all.len()
            invariant
                i <= all.len(),
                all@ == all_kinds(),
                ignore_case ==> wanted@ == lowered(name@),
                !ignore_case ==> wanted@ == name@,
                Self::first_match(name@, ignore_case, 0) == Self::first_match(
                    name@,
                    ignore_case,
                    i as int,
                ),
            decreases all.len() - i,
        {
            let kind = all[i];
            let own = chars_of(kind.name());
            let candidate = if ignore_case {
                to_lower(&own)
            } else {
                own
            };
            if same_text(&candidate, &wanted) {
                return Some(kind);
            }
            i += 1;
        }
        None
    }

    /// Finds the counter called `name`, letter case aside: a counter that
    /// carries the name, or nothing where no counter does.
    pub fn from_str_ignore_case(name: &str) -> (r: Option<EventKind>)
        ensures
            r == Self::named_ignore_case(name@),
            match r {
                Some(kind) => kind.matches_ignore_case(name@),
                None => forall|k: EventKind| !k.matches_ignore_case(name@),
            },
    {
        let chars = chars_of(name);
        proof {
            lemma_first_match(name@, true, 0);
            if Self::first_match(name@, true, 0).is_none() {
                assert forall|k: EventKind| !k.matches_ignore_case(name@) by {
                    lemma_all_kinds_complete(k);
                    assert(0 <= kind_index(k));
                    assert(!EventKind::carries(k, name@, true));
                }
            } else {
                assert(EventKind::carries(Self::first_match(name@, true, 0).unwrap(), name@, true));
            }
        }
        Self::lookup(&chars, true)
    }

    /// Finds the counter whose name is exactly `name`: a counter of that
    /// name, or nothing where no counter has it.
    pub fn from_name(name: &Vec<char>) -> (r: Option<EventKind>)
        ensures
            r == Self::named(name@),
            match r {
                Some(kind) => kind.name_spec() == name@,
                None => forall|k: EventKind| k.name_spec() != name@,
            },
    {
        proof {
            lemma_first_match(name@, false, 0);
            if Self::first_match(name@, false, 0).is_none() {
                assert forall|k: EventKind| k.name_spec() != name@ by {
                    lemma_all_kinds_complete(k);
                    assert(0 <= kind_index(k));
                    assert(!EventKind::carries(k, name@, false));
                }
            } else {
                assert(EventKind::carries(
                    Self::first_match(name@, false, 0).unwrap(),
                    name@,
                    false,
                ));
            }
        }
        Self::lookup(name, false)
    }
}

/// A counter found by name carries that name, and none before it in
/// `all_kinds` does; nothing is found only if no counter carries the name.
pub proof fn lemma_first_match(name: Seq<char>, ignore_case: bool, from: int)
    requires
        0 <= from <= all_kinds().len(),
    ensures
        match EventKind::first_match(name, ignore_case, from) {
            Some(kind) => EventKind::carries(kind, name, ignore_case),
            None => forall|k: EventKind|
                from <= #[trigger] kind_index(k) ==> !EventKind::carries(k, name, ignore_case),
        },
    decreases all_kinds().len() - from,
{
    if from < all_kinds().len() && !EventKind::carries(all_kinds()[from], name, ignore_case) {
        lemma_first_match(name, ignore_case, from + 1);
        if EventKind::first_match(name, ignore_case, from + 1).is_none() {
            assert forall|k: EventKind| from <= kind_index(k) implies !EventKind::carries(
                k,
                name,
                ignore_case,
            ) by {
                lemma_all_kinds_complete(k);
                if kind_index(k) == from {
                    assert(all_kinds()[from] == k);
                } else {
                    assert(from + 1 <= kind_index(k));
                }
            }
        }
    } else if from >= all_kinds().len() {
        assert forall|k: EventKind| from <= kind_index(k) implies !EventKind::carries(
            k,
            name,
            ignore_case,
        ) by {
            lemma_all_kinds_complete(k);
        }
    }
}

/// The position of a counter in `all_kinds`.
pub fn kind_position(kind: EventKind) -> (r: u64)
    ensures
        r == kind_index(kind),
        r < all_kinds().len(),
        all_kinds()[r as int] == kind,
{
    match kind {
        EventKind::Ir => 0,
        EventKind::Dr => 1,
        EventKind::Dw => 2,
        EventKind::I1mr => 3,
        EventKind::D1mr => 4,
        EventKind::D1mw => 5,
        EventKind::ILmr => 6,
        EventKind::DLmr => 7,
        EventKind::DLmw => 8,
        EventKind::L1hits => 9,
        EventKind::LLhits => 10,
        EventKind::RamHits => 11,
        EventKind::TotalRW => 12,
        EventKind::EstimatedCycles => 13,
        EventKind::SysCount => 14,
        EventKind::SysTime => 15,
        EventKind::SysCpuTime => 16,
        EventKind::Ge => 17,
        EventKind::Bc => 18,
        EventKind::Bcm => 19,
        EventKind::Bi => 20,
        EventKind::Bim => 21,
        EventKind::ILdmr => 22,
        EventKind::DLdmr => 23,
        EventKind::DLdmw => 24,
        EventKind::AcCost1 => 25,
        EventKind::AcCost2 => 26,
        EventKind::SpLoss1 => 27,
        EventKind::SpLoss2 => 28,
    }
}

/// The counter at a position of `all_kinds`, if the position is one.
pub fn kind_at(position: u64) -> (r: Option<EventKind>)
    ensures
        r == (if position < all_kinds().len() {
            Some(all_kinds()[position as int])
        } else {
            None
        }),
{
    let all = kinds();
    if position < all.len() as u64 {
        Some(all[position as usize])
    } else {
        None
    }
}

} // verus!
