//! Regression checks: percentage change of a count against a configured limit.

use vstd::prelude::*;
use vstd::string::StringExecFns;
use crate::framing::{digits_of, write_number};
use crate::parser::parse_error_text;
use crate::text::quoted;
use crate::event_kind::EventKind;
use crate::metrics::{count, Metrics};
use crate::percent::{parsed_percent, percent_text, pow10, power_of_ten, Percent};
use crate::text::{
    chars_of, lowered, same_text, split, split_at_first, split_on, split_once, string_of, to_lower,
    trim, trimmed, views,
};

verus! {

/// Which counters are checked against which limits, and whether the first
/// regression ends the whole run.
#[derive(Debug, PartialEq, Eq)]
pub struct RegressionConfig {
    /// The limits in the order in which they are checked. A positive limit
    /// bounds increases, a negative limit bounds decreases.
    pub limits: Vec<(EventKind, Percent)>,
    pub fail_fast: Option<bool>,
}

impl Clone for RegressionConfig {
    fn clone(&self) -> (r: Self)
        ensures
            r.limits@ == self.limits@,
            r.fail_fast == self.fail_fast,
    {
        let mut limits: Vec<(EventKind, Percent)> = Vec::new();
        let mut i: usize = 0;
        while i < self.limits.len()
            invariant
                i <= self.limits.len(),
                limits@ == self.limits@.take(i as int),
            decreases self.limits.len() - i,
        {
            limits.push(self.limits[i]);
            i += 1;
            assert(limits@ =~= self.limits@.take(i as int));
        }
        assert(self.limits@.take(self.limits.len() as int) =~= self.limits@);
        RegressionConfig { limits, fail_fast: self.fail_fast }
    }
}

impl Default for RegressionConfig {
    fn default() -> (r: Self)
        ensures
            r.limits@ == Seq::<(EventKind, Percent)>::empty(),
            r.fail_fast.is_none(),
    {
        RegressionConfig { limits: Vec::new(), fail_fast: None }
    }
}

/// A count that changed by more than its limit allows.
#[derive(Debug, Clone, Copy, PartialEq, Eq, Structural)]
pub struct Regression {
    pub event_kind: EventKind,
    pub old: u64,
    pub new: u64,
    /// The change in hundredths of a percent of the old count, rounded toward
    /// zero; none where the old count is zero and the percentage undefined.
    pub pct_hundredths: Option<i128>,
    pub limit: Percent,
}

/// The limit that applies where none is configured: instructions, plus ten percent.
pub open spec fn default_limit() -> (EventKind, Percent) {
    (EventKind::Ir, Percent { negative: false, digits: 10, scale: 0 })
}

/// The limits that are checked: the configured ones, or the default limit
/// where none is configured.
pub open spec fn effective_limits(limits: Seq<(EventKind, Percent)>) -> Seq<(EventKind, Percent)> {
    if limits.len() == 0 {
        seq![default_limit()]
    } else {
        limits
    }
}

/// Whether the change from `old` to `new` is a regression under `limit`.
///
/// The percentage change is `(new - old) / old * 100`. Under a positive limit
/// a change of at least the limit is a regression, under a negative limit a
/// change of at most the limit. A limit of zero is crossed by any increase,
/// a limit of minus zero by any decrease. Where the old count is zero the
/// percentage is undefined: no change is no regression, and any new cost is
/// one under a limit that bounds increases.
pub open spec fn exceeds(old: u64, new: u64, limit: Percent) -> bool {
    if old == 0 {
        new > 0 && !limit.negative
    } else if limit.digits == 0 {
        if limit.negative {
            new < old
        } else {
            new > old
        }
    } else if limit.negative {
        (new - old) * 100 * pow10(limit.scale as nat) <= -(limit.digits * old)
    } else {
        (new - old) * 100 * pow10(limit.scale as nat) >= limit.digits * old
    }
}

/// The change from `old` to `new` in hundredths of a percent, rounded toward zero.
pub open spec fn change_hundredths(old: u64, new: u64) -> Option<i128> {
    if old == 0 {
        None
    } else if new >= old {
        Some((((new - old) * 10000) / (old as int)) as i128)
    } else {
        Some((-(((old - new) * 10000) / (old as int))) as i128)
    }
}

/// The regression that a limit finds between two sets of counts, if any.
/// A counter that a set does not hold counts as zero.
pub open spec fn violation(
    limit: (EventKind, Percent),
    old: Map<EventKind, u64>,
    new: Map<EventKind, u64>,
) -> Option<Regression> {
    let before = count(old, limit.0);
    let after = count(new, limit.0);
    if exceeds(before, after, limit.1) {
        Some(
            Regression {
                event_kind: limit.0,
                old: before,
                new: after,
                pct_hundredths: change_hundredths(before, after),
                limit: limit.1,
            },
        )
    } else {
        None
    }
}

/// The regressions that the first `n` limits find, in the order of the limits.
pub open spec fn violations_of(
    limits: Seq<(EventKind, Percent)>,
    old: Map<EventKind, u64>,
    new: Map<EventKind, u64>,
    n: int,
) -> Seq<Regression>
    decreases n,
{
    if n <= 0 {
        Seq::empty()
    } else {
        let found = violations_of(limits, old, new, n - 1);
        match violation(limits[n - 1], old, new) {
            Some(regression) => found.push(regression),
            None => found,
        }
    }
}

/// The regressions between a baseline and new counts under the given limits.
pub open spec fn violations(
    limits: Seq<(EventKind, Percent)>,
    old: Map<EventKind, u64>,
    new: Map<EventKind, u64>,
) -> Seq<Regression> {
    violations_of(effective_limits(limits), old, new, effective_limits(limits).len() as int)
}

/// Whether every limit is a well-formed percentage.
pub open spec fn limits_wf(limits: Seq<(EventKind, Percent)>) -> bool {
    forall|i: int| 0 <= i < limits.len() ==> (#[trigger] limits[i]).1.wf()
}

/// Whether the change from `old` to `new` is a regression under `limit`.
pub fn is_regression(old: u64, new: u64, limit: Percent) -> (r: bool)
    requires
        limit.wf(),
    ensures
        r == exceeds(old, new, limit),
{
    if old == 0 {
        return new > 0 && !limit.negative;
    }
    if limit.digits == 0 {
        return if limit.negative {
            new < old
        } else {
            new > old
        };
    }
    let factor: u128 = power_of_ten(limit.scale) as u128;
    let ghost d = limit.digits as int;
    let ghost o = old as int;
    let ghost f = factor as int;
    assert(0 < d * o < 0x1_0000_0000_0000_0000 * 1_000_000_000_000_000_000) by (nonlinear_arith)
        requires
            0 < d < 1_000_000_000_000_000_000,
            0 < o < 0x1_0000_0000_0000_0000,
    ;
    let bound: u128 = (limit.digits as u128) * (old as u128);
    if limit.negative {
        if new >= old {
            assert((new - old) * 100 * f >= 0) by (nonlinear_arith)
                requires
                    new - old >= 0,
                    f >= 1,
            ;
            false
        } else {
            let ghost diff = (old - new) as int;
            assert(0 <= diff * 100 * f <= 0x1_0000_0000_0000_0000 * 100 * 1_000_000_000
                && (new - old) * 100 * f == -(diff * 100 * f)) by (nonlinear_arith)
                requires
                    0 <= diff < 0x1_0000_0000_0000_0000,
                    1 <= f <= 1_000_000_000,
                    diff == old - new,
            ;
            let change: u128 = ((old - new) as u128) * 100 * factor;
            change >= bound
        }
    } else {
        if new <= old {
            assert((new - old) * 100 * f <= 0) by (nonlinear_arith)
                requires
                    new - old <= 0,
                    f >= 1,
            ;
            false
        } else {
            let ghost diff = (new - old) as int;
            assert(0 <= diff * 100 * f <= 0x1_0000_0000_0000_0000 * 100 * 1_000_000_000)
                by (nonlinear_arith)
                requires
                    0 <= diff < 0x1_0000_0000_0000_0000,
                    1 <= f <= 1_000_000_000,
            ;
            let change: u128 = ((new - old) as u128) * 100 * factor;
            change >= bound
        }
    }
}

/// The change from `old` to `new` in hundredths of a percent, rounded toward zero.
pub fn percent_change(old: u64, new: u64) -> (r: Option<i128>)
    ensures
        r == change_hundredths(old, new),
{
    if old == 0 {
        None
    } else if new >= old {
        let scaled: u128 = ((new - old) as u128) * 10000;
        let quotient: u128 = scaled / (old as u128);
        Some(quotient as i128)
    } else {
        let scaled: u128 = ((old - new) as u128) * 10000;
        let quotient: u128 = scaled / (old as u128);
        Some(-(quotient as i128))
    }
}

impl RegressionConfig {
    /// Whether every limit is a well-formed percentage.
    pub open spec fn wf(&self) -> bool {
        limits_wf(self.limits@)
    }

    /// Whether every limit is a well-formed percentage.
    pub fn is_wf(&self) -> (r: bool)
        ensures
            r == self.wf(),
    {
        let mut i: usize = 0;
        while i < self.limits.len()
            invariant
                i <= self.limits.len(),
                forall|j: int| 0 <= j < i ==> (#[trigger] self.limits@[j]).1.wf(),
            decreases self.limits.len() - i,
        {
            if !self.limits[i].1.is_wf() {
                return false;
            }
            i += 1;
        }
        true
    }

    /// Adds limits to those already configured.
    pub fn limits(&mut self, targets: Vec<(EventKind, Percent)>) -> (ret: &mut Self)
        ensures
            ret.limits@ == old(self).limits@ + targets@,
            ret.fail_fast == old(self).fail_fast,
            *final(self) == *final(ret),
    {
        let mut i: usize = 0;
        while i < targets.len()
            invariant
                i <= targets.len(),
                self.limits@ == old(self).limits@ + targets@.take(i as int),
                self.fail_fast == old(self).fail_fast,
            decreases targets.len() - i,
        {
            self.limits.push(targets[i]);
            i += 1;
            assert(self.limits@ =~= old(self).limits@ + targets@.take(i as int));
        }
        assert(targets@.take(targets.len() as int) =~= targets@);
        self
    }

    /// Sets whether the first regression ends the whole run.
    pub fn fail_fast(&mut self, value: bool) -> (ret: &mut Self)
        ensures
            ret.fail_fast == Some(value),
            ret.limits == old(self).limits,
            *final(self) == *final(ret),
    {
        self.fail_fast = Some(value);
        self
    }

    /// Checks new counts against a baseline: one regression for every limit
    /// that is crossed, in the order of the limits.
    pub fn check(&self, baseline: &Metrics, new: &Metrics) -> (r: Vec<Regression>)
        requires
            self.wf(),
        ensures
            r@ == violations(self.limits@, baseline@, new@),
    {
        let standard: Vec<(EventKind, Percent)> = vec![
            (EventKind::Ir, Percent { negative: false, digits: 10, scale: 0 }),
        ];
        assert(standard@ =~= seq![default_limit()]);
        let limits = if self.limits.len() == 0 {
            &standard
        } else {
            &self.limits
        };
        assert(limits@ == effective_limits(self.limits@));
        assert(limits_wf(limits@));
        let mut found: Vec<Regression> = Vec::new();
        let mut i: usize = 0;
        while i < limits.len()
            invariant
                i <= limits.len(),
                limits_wf(limits@),
                found@ == violations_of(limits@, baseline@, new@, i as int),
            decreases limits.len() - i,
        {
            let (kind, limit) = limits[i];
            let before = baseline.value_of(kind);
            let after = new.value_of(kind);
            if is_regression(before, after, limit) {
                found.push(
                    Regression {
                        event_kind: kind,
                        old: before,
                        new: after,
                        pct_hundredths: percent_change(before, after),
                        limit,
                    },
                );
            }
            i += 1;
        }
        found
    }
}

/// What one entry of a limit list declares, or the message that rejects it.
pub open spec fn limit_of(piece: Seq<char>) -> Result<(EventKind, Percent), Seq<char>> {
    let entry = trimmed(piece);
    match split_once(entry, '=') {
        None => Err("Invalid format of key/value pair: '"@ + entry + "'"@),
        Some((k, v)) => {
            let key = trimmed(k);
            match EventKind::named_ignore_case(key) {
                None => Err("Unknown event kind: '"@ + key + "'"@),
                Some(kind) => match parsed_percent(trimmed(v)) {
                    None => if trimmed(v).len() == 0 {
                        Err(
                            "Invalid percentage for '"@ + key
                                + "': cannot parse float from empty string"@,
                        )
                    } else {
                        Err("Invalid percentage for '"@ + key + "': invalid float literal"@)
                    },
                    Some(limit) => Ok((kind, limit)),
                },
            }
        },
    }
}

/// The limits that the first `n` entries declare, or the message that
/// rejects the first entry that is not accepted.
pub open spec fn limits_of(pieces: Seq<Seq<char>>, n: int) -> Result<
    Seq<(EventKind, Percent)>,
    Seq<char>,
>
    decreases n,
{
    if n <= 0 {
        Ok(Seq::empty())
    } else {
        match limits_of(pieces, n - 1) {
            Err(message) => Err(message),
            Ok(limits) => match limit_of(pieces[n - 1]) {
                Ok(limit) => Ok(limits.push(limit)),
                Err(message) => Err(message),
            },
        }
    }
}

/// The limits that a configuration text declares: `default`, in any letter
/// case, for no limits of its own, else a list of `counter=percentage`
/// entries separated by commas. Counter names are matched in any letter case.
pub open spec fn regression_limits(text: Seq<char>) -> Result<Seq<(EventKind, Percent)>, Seq<char>> {
    let value = trimmed(text);
    if value.len() == 0 {
        Err("No limits found: At least one limit must be specified"@)
    } else if lowered(value) == lowered("default"@) {
        Ok(Seq::empty())
    } else {
        limits_of(split(value, ','), split(value, ',').len() as int)
    }
}

fn read_limit(piece: &Vec<char>) -> (r: Result<(EventKind, Percent), String>)
    ensures
        match r {
            Ok(limit) => limit_of(piece@) == Ok::<(EventKind, Percent), Seq<char>>(limit)
                && limit.1.wf(),
            Err(message) => limit_of(piece@) == Err::<(EventKind, Percent), Seq<char>>(message@),
        },
{
    let entry = trim(piece);
    match split_at_first(&entry, '=') {
        None => Err(quoted("Invalid format of key/value pair: '", &entry, "'")),
        Some((k, v)) => {
            let key = trim(&k);
            let name = string_of(&key);
            match EventKind::from_str_ignore_case(name.as_str()) {
                None => Err(quoted("Unknown event kind: '", &key, "'")),
                Some(kind) => {
                    let value = trim(&v);
                    match Percent::parse(&value) {
                        None => {
                            if value.len() == 0 {
                                Err(
                                    quoted(
                                        "Invalid percentage for '",
                                        &key,
                                        "': cannot parse float from empty string",
                                    ),
                                )
                            } else {
                                Err(
                                    quoted(
                                        "Invalid percentage for '",
                                        &key,
                                        "': invalid float literal",
                                    ),
                                )
                            }
                        },
                        Some(limit) => Ok((kind, limit)),
                    }
                },
            }
        },
    }
}

proof fn lemma_limits_of_fails(pieces: Seq<Seq<char>>, n: int, m: int)
    requires
        0 <= n <= m,
        limits_of(pieces, n).is_err(),
    ensures
        limits_of(pieces, m) == limits_of(pieces, n),
    decreases m - n,
{
    if n < m {
        lemma_limits_of_fails(pieces, n, m - 1);
    }
}

/// Reads the regression limits from their configuration text.
///
/// An empty text, an entry without `=`, an unknown counter and an unreadable
/// percentage are rejected, each with its message.
pub fn parse_regression_config(value: &str) -> (r: Result<RegressionConfig, String>)
    ensures
        match r {
            Ok(config) => regression_limits(value@) == Ok::<Seq<(EventKind, Percent)>, Seq<char>>(
                config.limits@,
            ) && config.fail_fast.is_none() && config.wf(),
            Err(message) => regression_limits(value@) == Err::<
                Seq<(EventKind, Percent)>,
                Seq<char>,
            >(message@),
        },
{
    let chars = chars_of(value);
    let text = trim(&chars);
    if text.len() == 0 {
        return Err(String::from_str("No limits found: At least one limit must be specified"));
    }
    let word = chars_of("default");
    if same_text(&to_lower(&text), &to_lower(&word)) {
        return Ok(RegressionConfig::default());
    }
    let pieces = split_on(&text, ',');
    let mut limits: Vec<(EventKind, Percent)> = Vec::new();
    let mut i: usize = 0;
    while i < pieces.len()
        invariant
            i <= pieces.len(),
            limits_wf(limits@),
            text@ == trimmed(value@),
            text@.len() > 0,
            lowered(text@) != lowered("default"@),
            views(pieces@) == split(text@, ','),
            limits_of(views(pieces@), i as int) == Ok::<Seq<(EventKind, Percent)>, Seq<char>>(
                limits@,
            ),
        decreases pieces.len() - i,
    {
        assert(views(pieces@)[i as int] == pieces@[i as int]@);
        match read_limit(&pieces[i]) {
            Ok(limit) => {
                limits.push(limit);
            },
            Err(message) => {
                proof {
                    lemma_limits_of_fails(views(pieces@), i as int + 1, pieces@.len() as int);
                }
                return Err(message);
            },
        }
        i += 1;
    }
    Ok(RegressionConfig { limits, fail_fast: None })
}

/// What is to happen after the regressions of a benchmark were recorded.
#[derive(Debug, Clone, Copy, PartialEq, Eq, Structural)]
pub enum Action {
    /// The next benchmark is run.
    Continue,
    /// No further benchmark is run.
    Abort,
}

/// Why a run failed.
#[derive(Debug)]
pub enum Error {
    /// A trace could not be read: the path and the reason
    IoError(String, String),
    /// A trace was rejected
    ParseError(crate::parser::ParseError),
    /// The configuration was rejected before any benchmark ran
    InvalidConfig(String),
    /// Counts changed by more than their limits allow
    RegressionError(Vec<Regression>),
}

/// The regressions of a whole run, collected benchmark by benchmark.
#[derive(Debug)]
pub struct RegressionRun {
    fail_fast: bool,
    collected: Vec<Regression>,
    stopped: bool,
}

/// The state of a run: what was collected, and whether it was stopped.
pub struct RunModel {
    pub fail_fast: bool,
    pub collected: Seq<Regression>,
    pub stopped: bool,
}

/// The run after a benchmark reported its regressions. A stopped run
/// takes nothing more. With fail-fast, the first regression stops the run
/// and is the only one kept; without it, all regressions are collected.
pub open spec fn recorded(run: RunModel, found: Seq<Regression>) -> RunModel {
    if run.stopped {
        run
    } else if run.fail_fast && found.len() > 0 {
        RunModel { collected: seq![found[0]], stopped: true, ..run }
    } else {
        RunModel { collected: run.collected + found, ..run }
    }
}

/// The run after the first `n` benchmarks reported their regressions.
pub open spec fn recorded_all(run: RunModel, found: Seq<Seq<Regression>>, n: int) -> RunModel
    decreases n,
{
    if n <= 0 {
        run
    } else {
        recorded(recorded_all(run, found, n - 1), found[n - 1])
    }
}

/// A run before its first benchmark.
pub open spec fn fresh_run(fail_fast: bool) -> RunModel {
    RunModel { fail_fast, collected: Seq::empty(), stopped: false }
}

impl View for RegressionRun {
    type V = RunModel;

    closed spec fn view(&self) -> RunModel {
        RunModel { fail_fast: self.fail_fast, collected: self.collected@, stopped: self.stopped }
    }
}

impl RegressionRun {
    /// A run before its first benchmark.
    pub fn new(fail_fast: bool) -> (r: Self)
        ensures
            r@ == fresh_run(fail_fast),
    {
        RegressionRun { fail_fast, collected: Vec::new(), stopped: false }
    }

    /// A run before its first benchmark, under the given configuration: the
    /// first regression ends the run only where the configuration says so.
    pub fn for_config(config: &RegressionConfig) -> (r: Self)
        ensures
            r@ == fresh_run(config.fail_fast == Some(true)),
    {
        let fail_fast = match config.fail_fast {
            Some(value) => value,
            None => false,
        };
        RegressionRun::new(fail_fast)
    }

    /// Whether no further benchmark is to be run.
    pub fn is_stopped(&self) -> (r: bool)
        ensures
            r == self@.stopped,
    {
        self.stopped
    }

    /// Records the regressions of the benchmark that just ran, and says
    /// whether the next one is to be run.
    pub fn record(&mut self, found: &Vec<Regression>) -> (action: Action)
        ensures
            final(self)@ == recorded(old(self)@, found@),
            action == (if final(self)@.stopped {
                Action::Abort
            } else {
                Action::Continue
            }),
    {
        if self.stopped {
            return Action::Abort;
        }
        if self.fail_fast && found.len() > 0 {
            let only: Vec<Regression> = vec![found[0]];
            assert(only@ =~= seq![found@[0]]);
            self.collected = only;
            self.stopped = true;
            return Action::Abort;
        }
        let mut i: usize = 0;
        while i < found.len()
            invariant
                i <= found.len(),
                self.collected@ == old(self).collected@ + found@.take(i as int),
                self.stopped == old(self).stopped,
                self.fail_fast == old(self).fail_fast,
            decreases found.len() - i,
        {
            self.collected.push(found[i]);
            i += 1;
            assert(self.collected@ =~= old(self).collected@ + found@.take(i as int));
        }
        assert(found@.take(found.len() as int) =~= found@);
        Action::Continue
    }

    /// The verdict of the run: failure with everything that was collected,
    /// unless nothing was.
    pub fn finish(self) -> (r: Result<(), Error>)
        ensures
            match r {
                Ok(_) => self@.collected.len() == 0,
                Err(Error::RegressionError(list)) => list@ == self@.collected && list@.len() > 0,
                Err(_) => false,
            },
    {
        if self.collected.len() == 0 {
            Ok(())
        } else {
            Err(Error::RegressionError(self.collected))
        }
    }
}

/// With fail-fast, a failed run reports exactly one regression.
pub proof fn lemma_fail_fast_reports_one(found: Seq<Seq<Regression>>, n: int)
    requires
        0 <= n <= found.len(),
    ensures
        recorded_all(fresh_run(true), found, n).collected.len() <= 1,
        recorded_all(fresh_run(true), found, n).stopped <==> recorded_all(
            fresh_run(true),
            found,
            n,
        ).collected.len() == 1,
        recorded_all(fresh_run(true), found, n).fail_fast,
    decreases n,
{
    if n > 0 {
        lemma_fail_fast_reports_one(found, n - 1);
    }
}

/// Without fail-fast a run is never stopped, and it reports as many
/// regressions as its benchmarks found together.
pub proof fn lemma_collects_everything(found: Seq<Seq<Regression>>, n: int)
    requires
        0 <= n <= found.len(),
    ensures
        !recorded_all(fresh_run(false), found, n).stopped,
        !recorded_all(fresh_run(false), found, n).fail_fast,
        recorded_all(fresh_run(false), found, n).collected.len() == count_all(found, n),
    decreases n,
{
    if n > 0 {
        lemma_collects_everything(found, n - 1);
    }
}

/// How many regressions the first `n` benchmarks found together.
pub open spec fn count_all(found: Seq<Seq<Regression>>, n: int) -> nat
    decreases n,
{
    if n <= 0 {
        0
    } else {
        count_all(found, n - 1) + found[n - 1].len()
    }
}

/// The sentence that reports a regression: the counter, its old and new
/// count, and the limit that was crossed.
pub open spec fn regression_text(r: Regression) -> Seq<char> {
    r.event_kind.name_spec() + " ("@ + digits_of(r.old as nat) + " -> "@ + digits_of(r.new as nat)
        + ") exceeds the limit of "@ + percent_text(r.limit) + "%"@
}

/// The sentences of the first `n` regressions, each on a line of its own.
pub open spec fn regression_lines(list: Seq<Regression>, n: int) -> Seq<char>
    decreases n,
{
    if n <= 0 {
        Seq::empty()
    } else {
        regression_lines(list, n - 1) + "\n  "@ + regression_text(list[n - 1])
    }
}

/// The text that reports a failed run.
pub open spec fn error_text(e: Error) -> Seq<char> {
    match e {
        Error::IoError(path, reason) => "Error reading file '"@ + path@ + "': "@ + reason@,
        Error::ParseError(error) => parse_error_text(
            error.path@,
            error.line_number as nat,
            error.line@,
            error.kind,
        ),
        Error::InvalidConfig(reason) => "Invalid configuration: "@ + reason@,
        Error::RegressionError(list) => "Performance has regressed:"@ + regression_lines(
            list@,
            list@.len() as int,
        ),
    }
}

impl Regression {
    /// The regression as a sentence.
    pub fn message(&self) -> (r: String)
        ensures
            r@ == regression_text(*self),
    {
        let old = string_of(&write_number(self.old));
        let new = string_of(&write_number(self.new));
        String::from_str(self.event_kind.name()).concat(" (").concat(old.as_str()).concat(
            " -> ",
        ).concat(new.as_str()).concat(") exceeds the limit of ").concat(
            self.limit.text().as_str(),
        ).concat("%")
    }
}

impl Error {
    /// The text that reports the failure.
    pub fn message(&self) -> (r: String)
        ensures
            r@ == error_text(*self),
    {
        match self {
            Error::IoError(path, reason) => String::from_str("Error reading file '").concat(
                path.as_str(),
            ).concat("': ").concat(reason.as_str()),
            Error::ParseError(error) => error.message(),
            Error::InvalidConfig(reason) => String::from_str("Invalid configuration: ").concat(
                reason.as_str(),
            ),
            Error::RegressionError(list) => {
                let mut text = String::from_str("Performance has regressed:");
                let mut i: usize = 0;
                assert("Performance has regressed:"@ + Seq::<char>::empty()
                    =~= "Performance has regressed:"@);
                while i < list.len()
                    invariant
                        i <= list.len(),
                        text@ == "Performance has regressed:"@ + regression_lines(list@, i as int),
                    decreases list.len() - i,
                {
                    let ghost before = text@;
                    let line = list[i].message();
                    text = text.concat("\n  ").concat(line.as_str());
                    i += 1;
                    assert(text@ =~= "Performance has regressed:"@ + regression_lines(
                        list@,
                        i as int,
                    ));
                }
                text
            },
        }
    }
}

} // verus!
