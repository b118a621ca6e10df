//! The trace parser: from the text of one trace to its header and cost map.
//!
//! A trace is read line by line. What a line means depends on what came
//! before it, so the parser is a state machine: `step` says how one line
//! changes the state, `run` folds it over all lines, and `finish` checks what
//! must hold at the end. The executable parser computes exactly that.

use vstd::prelude::*;
use vstd::string::StringExecFns;
use crate::framing::{digits_of, write_number};
use crate::callgrind_map::{
    id_model, merged, merged_all, path_model, sentinel_model, with_cost, CallgrindMap, Id,
    IdModel, Sentinel,
};
use crate::event_kind::EventKind;
use crate::metrics::{with_added, Metrics};
use crate::source_path::{classify, normalized, PathModel, SourcePath};
use crate::text::{
    ascii_tokens, chars_of, has_prefix, is_digit, is_digit_char, is_text, parse_u64, parsed_u64,
    split, split_ascii_words, split_at_first, split_on, split_once, split_words, starts_with_text,
    string_of, string_views, tokens, trim, trimmed, views,
};

verus! {

/// Why a trace was rejected.
#[derive(Debug, Clone, Copy, PartialEq, Eq, Structural)]
pub enum ParseErrorKind {
    /// The body began, or the trace ended, before the header named the position columns.
    MissingPositions,
    /// The body began, or the trace ended, before the header named the events.
    MissingEvents,
    /// The header names an event that is no known counter.
    UnknownEvent,
    /// A body line is neither a known directive nor a cost line.
    MalformedLine,
    /// A cost column does not hold a 64-bit count.
    InvalidCost,
    /// A cost line came before any function was named.
    MissingFunction,
    /// A call count came before its callee was named.
    CallsWithoutCallee,
    /// A call count is not a 64-bit number.
    InvalidCalls,
    /// A call count was not followed by the cost line of the call.
    MissingCostLine,
}

/// A rejected trace: which trace, where, and why.
#[derive(Debug)]
pub struct ParseError {
    /// The path of the trace, as given to the parser.
    pub path: String,
    /// The number of the offending line, counted from one; the number of the
    /// last line where the trace ended too early.
    pub line_number: usize,
    /// The offending line; empty where the trace ended too early.
    pub line: String,
    pub kind: ParseErrorKind,
}

/// The state of the parser between two lines.
pub struct ParseState {
    /// Whether the body has not begun yet.
    pub in_header: bool,
    pub positions: Option<Seq<Seq<char>>>,
    pub events: Option<Seq<EventKind>>,
    /// The current object file, source file and function.
    pub obj: Option<PathModel>,
    pub file: Option<PathModel>,
    pub func: Option<Seq<char>>,
    /// The object and source file named for the next callee.
    pub callee_obj: Option<PathModel>,
    pub callee_file: Option<PathModel>,
    /// The callee of the pending call site.
    pub callee: Option<IdModel>,
    /// The call count of the pending call site; set while its cost line is awaited.
    pub calls: Option<u64>,
    pub map: Map<IdModel, Map<EventKind, u64>>,
    pub sentinel: Option<Seq<char>>,
    pub sentinel_key: Option<IdModel>,
}

/// The state before the first line.
pub open spec fn initial_state(sentinel: Option<Seq<char>>) -> ParseState {
    ParseState {
        in_header: true,
        positions: None,
        events: None,
        obj: None,
        file: None,
        func: None,
        callee_obj: None,
        callee_file: None,
        callee: None,
        calls: None,
        map: Map::empty(),
        sentinel,
        sentinel_key: None,
    }
}

/// What a header line declares.
pub enum HeaderLine {
    Positions(Seq<char>),
    Events(Seq<char>),
    Other,
}

/// The header fields that are read over.
pub open spec fn known_header_key(key: Seq<char>) -> bool {
    key == "version"@ || key == "creator"@ || key == "pid"@ || key == "cmd"@ || key == "part"@
        || key == "thread"@ || key == "desc"@ || key == "summary"@ || key == "totals"@
}

/// Reads a line as a header directive: a known field name before the first colon.
pub open spec fn header_line(line: Seq<char>) -> Option<HeaderLine> {
    match split_once(line, ':') {
        None => None,
        Some((k, v)) => {
            let key = trimmed(k);
            if key == "positions"@ {
                Some(HeaderLine::Positions(v))
            } else if key == "events"@ {
                Some(HeaderLine::Events(v))
            } else if known_header_key(key) {
                Some(HeaderLine::Other)
            } else {
                None
            }
        },
    }
}

/// The counters that the first `n` words name; none if one of them names no counter.
pub open spec fn event_list(words: Seq<Seq<char>>, n: int) -> Option<Seq<EventKind>>
    decreases n,
{
    if n <= 0 {
        Some(Seq::empty())
    } else {
        match event_list(words, n - 1) {
            None => None,
            Some(events) => match EventKind::named(words[n - 1]) {
                Some(kind) => Some(events.push(kind)),
                None => None,
            },
        }
    }
}

/// The counts of a cost line for the first `n` events: the word at `offset + i`
/// is the count of event `i`, a missing word counts as zero. None if a word
/// that is present holds no 64-bit count.
pub open spec fn line_counts(events: Seq<EventKind>, words: Seq<Seq<char>>, offset: int, n: int)
    -> Option<Map<EventKind, u64>>
    decreases n,
{
    if n <= 0 {
        Some(Map::empty())
    } else {
        match line_counts(events, words, offset, n - 1) {
            None => None,
            Some(counts) => if offset + n - 1 < words.len() {
                match parsed_u64(words[offset + n - 1]) {
                    Some(amount) => Some(with_added(counts, events[n - 1], amount)),
                    None => None,
                }
            } else {
                Some(with_added(counts, events[n - 1], 0))
            },
        }
    }
}

/// Whether a line is a cost line: no `=` in it and a digit at its start.
pub open spec fn is_cost_line(line: Seq<char>) -> bool {
    split_once(line, '=').is_none() && line.len() > 0 && is_digit(line[0])
}

/// Folds a cost line into the entry of the pending callee, or of the current
/// function where no call site is pending.
pub open spec fn cost_step(s: ParseState, line: Seq<char>) -> Result<ParseState, ParseErrorKind> {
    if s.positions.is_none() {
        Err(ParseErrorKind::MissingPositions)
    } else if s.events.is_none() {
        Err(ParseErrorKind::MissingEvents)
    } else {
        let events = s.events.unwrap();
        match line_counts(
            events,
            tokens(line),
            s.positions.unwrap().len() as int,
            events.len() as int,
        ) {
            None => Err(ParseErrorKind::InvalidCost),
            Some(counts) => if s.calls.is_some() {
                match s.callee {
                    Some(id) => Ok(
                        ParseState {
                            map: with_cost(s.map, id, counts),
                            callee_obj: None,
                            callee_file: None,
                            callee: None,
                            calls: None,
                            ..s
                        },
                    ),
                    None => Err(ParseErrorKind::CallsWithoutCallee),
                }
            } else {
                match s.func {
                    Some(func) => Ok(
                        ParseState {
                            map: with_cost(
                                s.map,
                                IdModel { obj: s.obj, file: s.file, func },
                                counts,
                            ),
                            ..s
                        },
                    ),
                    None => Err(ParseErrorKind::MissingFunction),
                }
            },
        }
    }
}

/// Names the current function. The first function whose name the sentinel
/// matches becomes the sentinel key; later matches change nothing.
pub open spec fn function_step(s: ParseState, name: Seq<char>) -> ParseState {
    let named = ParseState { func: Some(name), ..s };
    match s.sentinel {
        Some(pattern) => if has_prefix(name, pattern) && s.sentinel_key.is_none() {
            ParseState {
                sentinel_key: Some(IdModel { obj: s.obj, file: s.file, func: name }),
                ..named
            }
        } else {
            named
        },
        None => named,
    }
}

/// Names the callee of the next call: in the object and file given for it,
/// else in the current ones.
pub open spec fn callee_step(s: ParseState, name: Seq<char>) -> ParseState {
    ParseState {
        callee: Some(
            IdModel {
                obj: if s.callee_obj.is_some() {
                    s.callee_obj
                } else {
                    s.obj
                },
                file: if s.callee_file.is_some() {
                    s.callee_file
                } else {
                    s.file
                },
                func: name,
            },
        ),
        callee_obj: None,
        callee_file: None,
        ..s
    }
}

/// Reads the call count of a call site, after which its cost line is awaited.
pub open spec fn calls_step(s: ParseState, value: Seq<char>) -> Result<ParseState, ParseErrorKind> {
    if s.callee.is_none() {
        Err(ParseErrorKind::CallsWithoutCallee)
    } else if ascii_tokens(value).len() == 0 {
        Ok(ParseState { calls: Some(0), ..s })
    } else {
        match parsed_u64(ascii_tokens(value)[0]) {
            Some(n) => Ok(ParseState { calls: Some(n), ..s }),
            None => Err(ParseErrorKind::InvalidCalls),
        }
    }
}

/// Applies a `key=value` line of the body.
pub open spec fn directive_step(root: Seq<char>, s: ParseState, key: Seq<char>, value: Seq<char>)
    -> Result<ParseState, ParseErrorKind> {
    if key == "ob"@ {
        Ok(ParseState { obj: Some(normalized(root, value)), ..s })
    } else if key == "fl"@ || key == "fi"@ || key == "fe"@ {
        Ok(ParseState { file: Some(normalized(root, value)), ..s })
    } else if key == "fn"@ {
        Ok(function_step(s, value))
    } else if key == "cob"@ {
        Ok(ParseState { callee_obj: Some(normalized(root, value)), ..s })
    } else if key == "cfi"@ || key == "cfl"@ {
        Ok(ParseState { callee_file: Some(normalized(root, value)), ..s })
    } else if key == "cfn"@ {
        Ok(callee_step(s, value))
    } else if key == "calls"@ {
        calls_step(s, value)
    } else if key == "jump"@ || key == "jcnd"@ || key == "jfi"@ || key == "jfn"@ {
        Ok(s)
    } else {
        Err(ParseErrorKind::MalformedLine)
    }
}

/// Applies a line of the body.
pub open spec fn body_step(root: Seq<char>, s: ParseState, line: Seq<char>) -> Result<
    ParseState,
    ParseErrorKind,
> {
    match split_once(line, '=') {
        Some((key, value)) => directive_step(root, s, key, value),
        None => if line.len() > 0 && is_digit(line[0]) {
            cost_step(s, line)
        } else if has_prefix(line, "totals:"@) || has_prefix(line, "summary:"@) {
            Ok(s)
        } else {
            Err(ParseErrorKind::MalformedLine)
        },
    }
}

/// Applies a line while the header is read. The first line with a `=` that
/// is no header directive begins the body; by then the header must have named
/// the positions and the events.
pub open spec fn header_step(root: Seq<char>, s: ParseState, line: Seq<char>) -> Result<
    ParseState,
    ParseErrorKind,
> {
    match header_line(line) {
        Some(HeaderLine::Positions(value)) => Ok(
            ParseState { positions: Some(ascii_tokens(trimmed(value))), ..s },
        ),
        Some(HeaderLine::Events(value)) => match event_list(
            ascii_tokens(trimmed(value)),
            ascii_tokens(trimmed(value)).len() as int,
        ) {
            Some(events) => Ok(ParseState { events: Some(events), ..s }),
            None => Err(ParseErrorKind::UnknownEvent),
        },
        Some(HeaderLine::Other) => Ok(s),
        None => if split_once(line, '=').is_none() {
            Ok(s)
        } else if s.positions.is_none() {
            Err(ParseErrorKind::MissingPositions)
        } else if s.events.is_none() {
            Err(ParseErrorKind::MissingEvents)
        } else {
            body_step(root, ParseState { in_header: false, ..s }, line)
        },
    }
}

/// Whether a trimmed line carries nothing: it is empty or a comment.
pub open spec fn is_skipped(line: Seq<char>) -> bool {
    line.len() == 0 || line[0] == '#'
}

/// How one line of the trace changes the state.
pub open spec fn step(root: Seq<char>, s: ParseState, raw: Seq<char>) -> Result<
    ParseState,
    ParseErrorKind,
> {
    let line = trimmed(raw);
    if is_skipped(line) {
        Ok(s)
    } else if s.calls.is_some() {
        if is_cost_line(line) {
            cost_step(s, line)
        } else {
            Err(ParseErrorKind::MissingCostLine)
        }
    } else if s.in_header {
        header_step(root, s, line)
    } else {
        body_step(root, s, line)
    }
}

/// The state after the lines from index `from` on, or the number of the
/// first line that is rejected, counted from one, and the reason.
pub open spec fn run(root: Seq<char>, s: ParseState, lines: Seq<Seq<char>>, from: int) -> Result<
    ParseState,
    (int, ParseErrorKind),
>
    decreases lines.len() - from,
{
    if from < 0 || from >= lines.len() {
        Ok(s)
    } else {
        match step(root, s, lines[from]) {
            Ok(next) => run(root, next, lines, from + 1),
            Err(kind) => Err((from + 1, kind)),
        }
    }
}

/// What a trace holds.
pub struct Parsed {
    pub positions: Seq<Seq<char>>,
    pub events: Seq<EventKind>,
    pub map: Map<IdModel, Map<EventKind, u64>>,
    pub sentinel_key: Option<IdModel>,
}

/// What must hold once the last line is read: no call site awaits its cost
/// line, and the header has named positions and events.
pub open spec fn finish(s: ParseState) -> Result<Parsed, ParseErrorKind> {
    if s.calls.is_some() {
        Err(ParseErrorKind::MissingCostLine)
    } else if s.positions.is_none() {
        Err(ParseErrorKind::MissingPositions)
    } else if s.events.is_none() {
        Err(ParseErrorKind::MissingEvents)
    } else {
        Ok(
            Parsed {
                positions: s.positions.unwrap(),
                events: s.events.unwrap(),
                map: s.map,
                sentinel_key: s.sentinel_key,
            },
        )
    }
}

/// What the text of a trace holds under the given project root and sentinel,
/// or the number of the offending line and the reason for which it is
/// rejected. Where the trace ends too early, that is its last line.
pub open spec fn parsed(root: Seq<char>, sentinel: Option<Seq<char>>, content: Seq<char>) -> Result<
    Parsed,
    (int, ParseErrorKind),
> {
    let lines = split(content, '\n');
    match run(root, initial_state(sentinel), lines, 0) {
        Err(e) => Err(e),
        Ok(s) => match finish(s) {
            Ok(p) => Ok(p),
            Err(kind) => Err((lines.len() as int, kind)),
        },
    }
}

/// The line that is rejected; empty where the trace is rejected because it
/// ends too early.
pub open spec fn offending_line(root: Seq<char>, sentinel: Option<Seq<char>>, content: Seq<char>)
    -> Seq<char> {
    let lines = split(content, '\n');
    match run(root, initial_state(sentinel), lines, 0) {
        Err((number, _)) => lines[number - 1],
        Ok(_) => Seq::empty(),
    }
}

/// The header of a trace: the names of the position columns and the events
/// whose counts follow them on every cost line, in column order.
#[derive(Debug)]
pub struct CallgrindProperties {
    pub positions: Vec<String>,
    pub events: Vec<EventKind>,
}

/// Parses traces into cost maps.
#[derive(Debug)]
pub struct HashMapParser {
    pub sentinel: Option<Sentinel>,
    pub project_root: String,
}

/// The model of optional words.
pub open spec fn opt_words(words: Option<Vec<Vec<char>>>) -> Option<Seq<Seq<char>>> {
    match words {
        Some(w) => Some(views(w@)),
        None => None,
    }
}

/// The model of optional events.
pub open spec fn opt_events(events: Option<Vec<EventKind>>) -> Option<Seq<EventKind>> {
    match events {
        Some(e) => Some(e@),
        None => None,
    }
}

/// The model of an optional text.
pub open spec fn opt_text(text: Option<String>) -> Option<Seq<char>> {
    match text {
        Some(t) => Some(t@),
        None => None,
    }
}

struct Machine {
    in_header: bool,
    positions: Option<Vec<Vec<char>>>,
    events: Option<Vec<EventKind>>,
    obj: Option<SourcePath>,
    file: Option<SourcePath>,
    func: Option<String>,
    callee_obj: Option<SourcePath>,
    callee_file: Option<SourcePath>,
    callee: Option<Id>,
    calls: Option<u64>,
    map: CallgrindMap,
}

enum HeaderEntry {
    Positions(Vec<char>),
    Events(Vec<char>),
    Other,
}

impl HeaderEntry {
    spec fn model(self) -> HeaderLine {
        match self {
            HeaderEntry::Positions(v) => HeaderLine::Positions(v@),
            HeaderEntry::Events(v) => HeaderLine::Events(v@),
            HeaderEntry::Other => HeaderLine::Other,
        }
    }
}

fn is_known_header_key(key: &Vec<char>) -> (r: bool)
    ensures
        r == known_header_key(key@),
{
    is_text(key, "version") || is_text(key, "creator") || is_text(key, "pid") || is_text(
        key,
        "cmd",
    ) || is_text(key, "part") || is_text(key, "thread") || is_text(key, "desc") || is_text(
        key,
        "summary",
    ) || is_text(key, "totals")
}

fn read_header_line(line: &Vec<char>) -> (r: Option<HeaderEntry>)
    ensures
        match r {
            Some(entry) => header_line(line@) == Some(entry.model()),
            None => header_line(line@).is_none(),
        },
{
    match split_at_first(line, ':') {
        None => None,
        Some((k, v)) => {
            let key = trim(&k);
            if is_text(&key, "positions") {
                Some(HeaderEntry::Positions(v))
            } else if is_text(&key, "events") {
                Some(HeaderEntry::Events(v))
            } else if is_known_header_key(&key) {
                Some(HeaderEntry::Other)
            } else {
                None
            }
        },
    }
}

fn read_events(words: &Vec<Vec<char>>) -> (r: Option<Vec<EventKind>>)
    ensures
        opt_events(r) == event_list(views(words@), words@.len() as int),
{
    let mut events: Vec<EventKind> = Vec::new();
    let mut i: usize = 0;
    while i < words.len()
        invariant
            i <= words.len(),
            event_list(views(words@), i as int) == Some(events@),
        decreases words.len() - i,
    {
        match EventKind::from_name(&words[i]) {
            Some(kind) => {
                events.push(kind);
            },
            None => {
                proof {
                    lemma_event_list_fails(views(words@), i as int + 1, words@.len() as int);
                }
                return None;
            },
        }
        i += 1;
    }
    Some(events)
}

proof fn lemma_event_list_fails(words: Seq<Seq<char>>, n: int, m: int)
    requires
        0 <= n <= m,
        event_list(words, n).is_none(),
    ensures
        event_list(words, m).is_none(),
    decreases m - n,
{
    if n < m {
        lemma_event_list_fails(words, n, m - 1);
    }
}

proof fn lemma_line_counts_fails(
    events: Seq<EventKind>,
    words: Seq<Seq<char>>,
    offset: int,
    n: int,
    m: int,
)
    requires
        0 <= n <= m,
        line_counts(events, words, offset, n).is_none(),
    ensures
        line_counts(events, words, offset, m).is_none(),
    decreases m - n,
{
    if n < m {
        lemma_line_counts_fails(events, words, offset, n, m - 1);
    }
}

fn read_counts(events: &Vec<EventKind>, words: &Vec<Vec<char>>, offset: usize) -> (r: Option<
    Metrics,
>)
    ensures
        match r {
            Some(metrics) => line_counts(
                events@,
                views(words@),
                offset as int,
                events@.len() as int,
            ) == Some(metrics@),
            None => line_counts(events@, views(words@), offset as int, events@.len() as int)
                .is_none(),
        },
{
    let mut metrics = Metrics::new();
    let mut i: usize = 0;
    while i < events.len()
        invariant
            i <= events.len(),
            line_counts(events@, views(words@), offset as int, i as int) == Some(metrics@),
        decreases events.len() - i,
    {
        let amount: u64 = if i < words.len() && offset < words.len() - i {
            match parse_u64(&words[offset + i]) {
                Some(v) => v,
                None => {
                    proof {
                        lemma_line_counts_fails(
                            events@,
                            views(words@),
                            offset as int,
                            i as int + 1,
                            events@.len() as int,
                        );
                    }
                    return None;
                },
            }
        } else {
            0
        };
        metrics.add_value(events[i], amount);
        i += 1;
    }
    Some(metrics)
}

impl Machine {
    spec fn model(&self) -> ParseState {
        ParseState {
            in_header: self.in_header,
            positions: opt_words(self.positions),
            events: opt_events(self.events),
            obj: path_model(self.obj),
            file: path_model(self.file),
            func: opt_text(self.func),
            callee_obj: path_model(self.callee_obj),
            callee_file: path_model(self.callee_file),
            callee: id_model(self.callee),
            calls: self.calls,
            map: self.map@.map,
            sentinel: self.map@.sentinel,
            sentinel_key: self.map@.sentinel_key,
        }
    }

    fn new(sentinel: Option<Sentinel>) -> (r: Self)
        ensures
            r.model() == initial_state(sentinel_model(sentinel)),
    {
        Machine {
            in_header: true,
            positions: None,
            events: None,
            obj: None,
            file: None,
            func: None,
            callee_obj: None,
            callee_file: None,
            callee: None,
            calls: None,
            map: CallgrindMap::new(sentinel),
        }
    }

    fn cost_step(&mut self, line: &Vec<char>) -> (r: Result<(), ParseErrorKind>)
        ensures
            match r {
                Ok(_) => cost_step(old(self).model(), line@) == Ok::<ParseState, ParseErrorKind>(
                    final(self).model(),
                ),
                Err(kind) => cost_step(old(self).model(), line@) == Err::<
                    ParseState,
                    ParseErrorKind,
                >(kind),
            },
    {
        let offset: usize = match &self.positions {
            Some(p) => p.len(),
            None => {
                return Err(ParseErrorKind::MissingPositions);
            },
        };
        let counts = match &self.events {
            Some(events) => {
                let words = split_words(line);
                read_counts(events, &words, offset)
            },
            None => {
                return Err(ParseErrorKind::MissingEvents);
            },
        };
        let metrics = match counts {
            Some(m) => m,
            None => {
                return Err(ParseErrorKind::InvalidCost);
            },
        };
        if self.calls.is_some() {
            let mut callee: Option<Id> = None;
            std::mem::swap(&mut self.callee, &mut callee);
            match callee {
                Some(id) => {
                    self.map.add_cost(id, &metrics);
                    self.callee_obj = None;
                    self.callee_file = None;
                    self.calls = None;
                    Ok(())
                },
                None => Err(ParseErrorKind::CallsWithoutCallee),
            }
        } else {
            match &self.func {
                Some(func) => {
                    let id = Id {
                        obj: crate::callgrind_map::clone_path(&self.obj),
                        file: crate::callgrind_map::clone_path(&self.file),
                        func: func.clone(),
                    };
                    self.map.add_cost(id, &metrics);
                    Ok(())
                },
                None => Err(ParseErrorKind::MissingFunction),
            }
        }
    }

    fn function_step(&mut self, name: &Vec<char>)
        ensures
            final(self).model() == function_step(old(self).model(), name@),
    {
        let func = string_of(name);
        let matched = match self.map.sentinel() {
            Some(sentinel) => sentinel.matches(func.as_str()) && self.map.sentinel_key().is_none(),
            None => false,
        };
        if matched {
            let id = Id {
                obj: crate::callgrind_map::clone_path(&self.obj),
                file: crate::callgrind_map::clone_path(&self.file),
                func: func.clone(),
            };
            self.map.set_sentinel_key(Some(id));
        }
        self.func = Some(func);
    }

    fn callee_step(&mut self, name: &Vec<char>)
        ensures
            final(self).model() == callee_step(old(self).model(), name@),
    {
        let mut obj: Option<SourcePath> = None;
        std::mem::swap(&mut self.callee_obj, &mut obj);
        let mut file: Option<SourcePath> = None;
        std::mem::swap(&mut self.callee_file, &mut file);
        let obj = match obj {
            Some(p) => Some(p),
            None => crate::callgrind_map::clone_path(&self.obj),
        };
        let file = match file {
            Some(p) => Some(p),
            None => crate::callgrind_map::clone_path(&self.file),
        };
        self.callee = Some(Id { obj, file, func: string_of(name) });
    }

    fn calls_step(&mut self, value: &Vec<char>) -> (r: Result<(), ParseErrorKind>)
        ensures
            match r {
                Ok(_) => calls_step(old(self).model(), value@) == Ok::<ParseState, ParseErrorKind>(
                    final(self).model(),
                ),
                Err(kind) => calls_step(old(self).model(), value@) == Err::<
                    ParseState,
                    ParseErrorKind,
                >(kind),
            },
    {
        if self.callee.is_none() {
            return Err(ParseErrorKind::CallsWithoutCallee);
        }
        let words = split_ascii_words(value);
        if words.len() == 0 {
            self.calls = Some(0);
            return Ok(());
        }
        match parse_u64(&words[0]) {
            Some(n) => {
                self.calls = Some(n);
                Ok(())
            },
            None => Err(ParseErrorKind::InvalidCalls),
        }
    }

    fn directive_step(&mut self, root: &Vec<char>, key: &Vec<char>, value: &Vec<char>) -> (r:
        Result<(), ParseErrorKind>)
        ensures
            match r {
                Ok(_) => directive_step(root@, old(self).model(), key@, value@) == Ok::<
                    ParseState,
                    ParseErrorKind,
                >(final(self).model()),
                Err(kind) => directive_step(root@, old(self).model(), key@, value@) == Err::<
                    ParseState,
                    ParseErrorKind,
                >(kind),
            },
    {
        if is_text(key, "ob") {
            self.obj = Some(classify(root, value));
            Ok(())
        } else if is_text(key, "fl") || is_text(key, "fi") || is_text(key, "fe") {
            self.file = Some(classify(root, value));
            Ok(())
        } else if is_text(key, "fn") {
            self.function_step(value);
            Ok(())
        } else if is_text(key, "cob") {
            self.callee_obj = Some(classify(root, value));
            Ok(())
        } else if is_text(key, "cfi") || is_text(key, "cfl") {
            self.callee_file = Some(classify(root, value));
            Ok(())
        } else if is_text(key, "cfn") {
            self.callee_step(value);
            Ok(())
        } else if is_text(key, "calls") {
            self.calls_step(value)
        } else if is_text(key, "jump") || is_text(key, "jcnd") || is_text(key, "jfi") || is_text(
            key,
            "jfn",
        ) {
            Ok(())
        } else {
            Err(ParseErrorKind::MalformedLine)
        }
    }

    fn body_step(&mut self, root: &Vec<char>, line: &Vec<char>) -> (r: Result<(), ParseErrorKind>)
        ensures
            match r {
                Ok(_) => body_step(root@, old(self).model(), line@) == Ok::<
                    ParseState,
                    ParseErrorKind,
                >(final(self).model()),
                Err(kind) => body_step(root@, old(self).model(), line@) == Err::<
                    ParseState,
                    ParseErrorKind,
                >(kind),
            },
    {
        match split_at_first(line, '=') {
            Some((key, value)) => self.directive_step(root, &key, &value),
            None => {
                if line.len() > 0 && is_digit_char(line[0]) {
                    self.cost_step(line)
                } else if starts_with_text(line, "totals:") || starts_with_text(line, "summary:") {
                    Ok(())
                } else {
                    Err(ParseErrorKind::MalformedLine)
                }
            },
        }
    }

    fn header_step(&mut self, root: &Vec<char>, line: &Vec<char>) -> (r: Result<
        (),
        ParseErrorKind,
    >)
        ensures
            match r {
                Ok(_) => header_step(root@, old(self).model(), line@) == Ok::<
                    ParseState,
                    ParseErrorKind,
                >(final(self).model()),
                Err(kind) => header_step(root@, old(self).model(), line@) == Err::<
                    ParseState,
                    ParseErrorKind,
                >(kind),
            },
    {
        match read_header_line(line) {
            Some(HeaderEntry::Positions(value)) => {
                self.positions = Some(split_ascii_words(&trim(&value)));
                Ok(())
            },
            Some(HeaderEntry::Events(value)) => {
                let words = split_ascii_words(&trim(&value));
                match read_events(&words) {
                    Some(events) => {
                        self.events = Some(events);
                        Ok(())
                    },
                    None => Err(ParseErrorKind::UnknownEvent),
                }
            },
            Some(HeaderEntry::Other) => Ok(()),
            None => {
                if split_at_first(line, '=').is_none() {
                    Ok(())
                } else if self.positions.is_none() {
                    Err(ParseErrorKind::MissingPositions)
                } else if self.events.is_none() {
                    Err(ParseErrorKind::MissingEvents)
                } else {
                    self.in_header = false;
                    self.body_step(root, line)
                }
            },
        }
    }

    fn step(&mut self, root: &Vec<char>, raw: &Vec<char>) -> (r: Result<(), ParseErrorKind>)
        ensures
            match r {
                Ok(_) => step(root@, old(self).model(), raw@) == Ok::<ParseState, ParseErrorKind>(
                    final(self).model(),
                ),
                Err(kind) => step(root@, old(self).model(), raw@) == Err::<
                    ParseState,
                    ParseErrorKind,
                >(kind),
            },
    {
        let line = trim(raw);
        if line.len() == 0 || line[0] == '#' {
            Ok(())
        } else if self.calls.is_some() {
            if split_at_first(&line, '=').is_none() && is_digit_char(line[0]) {
                self.cost_step(&line)
            } else {
                Err(ParseErrorKind::MissingCostLine)
            }
        } else if self.in_header {
            self.header_step(root, &line)
        } else {
            self.body_step(root, &line)
        }
    }
}

fn to_strings(words: &Vec<Vec<char>>) -> (r: Vec<String>)
    ensures
        string_views(r@) == views(words@),
{
    let mut out: Vec<String> = Vec::new();
    let mut i: usize = 0;
    while i < words.len()
        invariant
            i <= words.len(),
            out@.len() == i,
            forall|j: int| 0 <= j < i ==> out@[j]@ == words@[j]@,
        decreases words.len() - i,
    {
        out.push(string_of(&words[i]));
        i += 1;
    }
    assert(string_views(out@) =~= views(words@));
    out
}

impl Default for HashMapParser {
    fn default() -> (r: Self)
        ensures
            r.sentinel.is_none(),
            r.project_root@ == Seq::<char>::empty(),
    {
        HashMapParser { sentinel: None, project_root: String::new() }
    }
}

impl HashMapParser {
    /// A parser for traces of the project at `project_root`.
    pub fn new(sentinel: Option<Sentinel>, project_root: &str) -> (r: Self)
        ensures
            sentinel_model(r.sentinel) == sentinel_model(sentinel),
            r.project_root@ == project_root@,
    {
        HashMapParser { sentinel, project_root: project_root.to_owned() }
    }

    /// Parses the text of one trace. `path` names the trace in the error.
    ///
    /// The result is what `parsed` says of the text: the header and the cost
    /// map, or the first offending line and the reason.
    pub fn parse_single(&self, path: &str, content: &str) -> (r: Result<
        (CallgrindProperties, CallgrindMap),
        ParseError,
    >)
        ensures
            match r {
                Ok((header, map)) => parsed(
                    self.project_root@,
                    sentinel_model(self.sentinel),
                    content@,
                ) == Ok::<Parsed, (int, ParseErrorKind)>(
                    Parsed {
                        positions: string_views(header.positions@),
                        events: header.events@,
                        map: map@.map,
                        sentinel_key: map@.sentinel_key,
                    },
                ) && map@.sentinel == sentinel_model(self.sentinel),
                Err(e) => parsed(self.project_root@, sentinel_model(self.sentinel), content@)
                    == Err::<Parsed, (int, ParseErrorKind)>((e.line_number as int, e.kind))
                    && e.path@ == path@ && e.line@ == offending_line(
                    self.project_root@,
                    sentinel_model(self.sentinel),
                    content@,
                ),
            },
    {
        let root = chars_of(self.project_root.as_str());
        let text = chars_of(content);
        let lines = split_on(&text, '\n');
        let sentinel = match &self.sentinel {
            Some(s) => Some(s.clone()),
            None => None,
        };
        let mut machine = Machine::new(sentinel);
        let ghost start = machine.model();
        let mut i: usize = 0;
        while i < lines.len()
            invariant
                i <= lines.len(),
                root@ == self.project_root@,
                views(lines@) == split(content@, '\n'),
                start == initial_state(sentinel_model(self.sentinel)),
                machine.model().sentinel == sentinel_model(self.sentinel),
                run(root@, start, views(lines@), 0) == run(
                    root@,
                    machine.model(),
                    views(lines@),
                    i as int,
                ),
            decreases lines.len() - i,
        {
            assert(views(lines@)[i as int] == lines@[i as int]@);
            match machine.step(&root, &lines[i]) {
                Ok(_) => {},
                Err(kind) => {
                    return Err(
                        ParseError {
                            path: path.to_owned(),
                            line_number: i + 1,
                            line: string_of(&lines[i]),
                            kind,
                        },
                    );
                },
            }
            i += 1;
        }
        let ghost end = machine.model();
        assert(run(root@, start, views(lines@), 0) == Ok::<ParseState, (int, ParseErrorKind)>(end));
        if machine.calls.is_some() {
            return Err(
                ParseError {
                    path: path.to_owned(),
                    line_number: lines.len(),
                    line: String::new(),
                    kind: ParseErrorKind::MissingCostLine,
                },
            );
        }
        let positions = match &machine.positions {
            Some(p) => to_strings(p),
            None => {
                return Err(
                    ParseError {
                        path: path.to_owned(),
                        line_number: lines.len(),
                        line: String::new(),
                        kind: ParseErrorKind::MissingPositions,
                    },
                );
            },
        };
        let Machine { events, map, .. } = machine;
        match events {
            Some(events) => Ok((CallgrindProperties { positions, events }, map)),
            None => Err(
                ParseError {
                    path: path.to_owned(),
                    line_number: lines.len(),
                    line: String::new(),
                    kind: ParseErrorKind::MissingEvents,
                },
            ),
        }
    }
}

/// What the first `n` traces of one benchmark run hold together: their cost
/// maps merged, and the sentinel key of the first trace that resolved one.
/// Or the first trace that is rejected, with the offending line and the reason.
pub open spec fn parsed_all(
    root: Seq<char>,
    sentinel: Option<Seq<char>>,
    contents: Seq<Seq<char>>,
    n: int,
) -> Result<(Map<IdModel, Map<EventKind, u64>>, Option<IdModel>), (int, int, ParseErrorKind)>
    decreases n,
{
    if n <= 0 {
        Ok((Map::empty(), None))
    } else {
        match parsed_all(root, sentinel, contents, n - 1) {
            Err(e) => Err(e),
            Ok((map, key)) => match parsed(root, sentinel, contents[n - 1]) {
                Err((line, kind)) => Err((n - 1, line, kind)),
                Ok(p) => Ok(
                    (
                        merged(map, p.map),
                        if key.is_some() {
                            key
                        } else {
                            p.sentinel_key
                        },
                    ),
                ),
            },
        }
    }
}

/// The contents of the traces.
pub open spec fn contents_of(traces: Seq<(String, String)>) -> Seq<Seq<char>> {
    Seq::new(traces.len(), |i: int| traces[i].1@)
}

proof fn lemma_parsed_all_fails(
    root: Seq<char>,
    sentinel: Option<Seq<char>>,
    contents: Seq<Seq<char>>,
    n: int,
    m: int,
)
    requires
        0 <= n <= m,
        parsed_all(root, sentinel, contents, n).is_err(),
    ensures
        parsed_all(root, sentinel, contents, m) == parsed_all(root, sentinel, contents, n),
    decreases m - n,
{
    if n < m {
        lemma_parsed_all_fails(root, sentinel, contents, n, m - 1);
    }
}

impl HashMapParser {
    /// Parses the traces of one benchmark run, given as pairs of path and
    /// text, and merges their cost maps into one. The traces may come in any
    /// order. The first trace that is rejected rejects the run.
    pub fn parse_all(&self, traces: &Vec<(String, String)>) -> (r: Result<CallgrindMap, ParseError>)
        ensures
            match r {
                Ok(total) => parsed_all(
                    self.project_root@,
                    sentinel_model(self.sentinel),
                    contents_of(traces@),
                    traces@.len() as int,
                ) == Ok::<
                    (Map<IdModel, Map<EventKind, u64>>, Option<IdModel>),
                    (int, int, ParseErrorKind),
                >((total@.map, total@.sentinel_key)) && total@.sentinel == sentinel_model(
                    self.sentinel,
                ),
                Err(e) => exists|i: int|
                    0 <= i < traces@.len() && e.path@ == traces@[i].0@ && e.line@
                        == offending_line(
                        self.project_root@,
                        sentinel_model(self.sentinel),
                        traces@[i].1@,
                    ) && parsed_all(
                        self.project_root@,
                        sentinel_model(self.sentinel),
                        contents_of(traces@),
                        traces@.len() as int,
                    ) == Err::<
                        (Map<IdModel, Map<EventKind, u64>>, Option<IdModel>),
                        (int, int, ParseErrorKind),
                    >((i, e.line_number as int, e.kind)),
            },
    {
        let sentinel = match &self.sentinel {
            Some(s) => Some(s.clone()),
            None => None,
        };
        let mut total = CallgrindMap::new(sentinel);
        let mut i: usize = 0;
        while i < traces.len()
            invariant
                i <= traces.len(),
                total@.sentinel == sentinel_model(self.sentinel),
                parsed_all(
                    self.project_root@,
                    sentinel_model(self.sentinel),
                    contents_of(traces@),
                    i as int,
                ) == Ok::<
                    (Map<IdModel, Map<EventKind, u64>>, Option<IdModel>),
                    (int, int, ParseErrorKind),
                >((total@.map, total@.sentinel_key)),
            decreases traces.len() - i,
        {
            assert(contents_of(traces@)[i as int] == traces@[i as int].1@);
            match self.parse_single(traces[i].0.as_str(), traces[i].1.as_str()) {
                Ok((_, map)) => {
                    total.add_mut(&map);
                    if total.sentinel_key().is_none() {
                        let key = match map.sentinel_key() {
                            Some(k) => Some(k.clone()),
                            None => None,
                        };
                        total.set_sentinel_key(key);
                    }
                },
                Err(e) => {
                    proof {
                        lemma_parsed_all_fails(
                            self.project_root@,
                            sentinel_model(self.sentinel),
                            contents_of(traces@),
                            i as int + 1,
                            traces@.len() as int,
                        );
                    }
                    return Err(e);
                },
            }
            i += 1;
        }
        Ok(total)
    }
}

/// The cost maps of the first `n` traces, each parsed on its own.
pub open spec fn parsed_maps(
    root: Seq<char>,
    sentinel: Option<Seq<char>>,
    contents: Seq<Seq<char>>,
    n: int,
) -> Seq<Map<IdModel, Map<EventKind, u64>>> {
    Seq::new(
        if n < 0 {
            0
        } else {
            n as nat
        },
        |i: int| parsed(root, sentinel, contents[i])->Ok_0.map,
    )
}

/// The cost map of a run is the merge of the cost maps of its traces; by
/// `lemma_merge_order` it does not depend on the order of the traces.
pub proof fn lemma_parsed_all_merges(
    root: Seq<char>,
    sentinel: Option<Seq<char>>,
    contents: Seq<Seq<char>>,
    n: int,
)
    requires
        0 <= n <= contents.len(),
        parsed_all(root, sentinel, contents, n).is_ok(),
    ensures
        parsed_all(root, sentinel, contents, n)->Ok_0.0 == merged_all(
            parsed_maps(root, sentinel, contents, n),
        ),
    decreases n,
{
    let maps = parsed_maps(root, sentinel, contents, n);
    if n > 0 {
        lemma_parsed_all_merges(root, sentinel, contents, n - 1);
        assert(maps.drop_last() =~= parsed_maps(root, sentinel, contents, n - 1));
    }
}

impl ParseErrorKind {
    /// The reason in words.
    pub open spec fn reason_spec(self) -> Seq<char> {
        match self {
            ParseErrorKind::MissingPositions => "the header does not name the positions"@,
            ParseErrorKind::MissingEvents => "the header does not name the events"@,
            ParseErrorKind::UnknownEvent => "unknown event"@,
            ParseErrorKind::MalformedLine => "malformed line"@,
            ParseErrorKind::InvalidCost => "invalid cost"@,
            ParseErrorKind::MissingFunction => "cost without a function"@,
            ParseErrorKind::CallsWithoutCallee => "call count without a callee"@,
            ParseErrorKind::InvalidCalls => "invalid call count"@,
            ParseErrorKind::MissingCostLine => "call without its cost line"@,
        }
    }

    /// The reason in words.
    pub fn reason(self) -> (r: &'static str)
        ensures
            r@ == self.reason_spec(),
    {
        match self {
            ParseErrorKind::MissingPositions => "the header does not name the positions",
            ParseErrorKind::MissingEvents => "the header does not name the events",
            ParseErrorKind::UnknownEvent => "unknown event",
            ParseErrorKind::MalformedLine => "malformed line",
            ParseErrorKind::InvalidCost => "invalid cost",
            ParseErrorKind::MissingFunction => "cost without a function",
            ParseErrorKind::CallsWithoutCallee => "call count without a callee",
            ParseErrorKind::InvalidCalls => "invalid call count",
            ParseErrorKind::MissingCostLine => "call without its cost line",
        }
    }
}

/// The sentence that reports a rejected trace: the path, the reason, and
/// the number and text of the offending line.
pub open spec fn parse_error_text(
    path: Seq<char>,
    line_number: nat,
    line: Seq<char>,
    kind: ParseErrorKind,
) -> Seq<char> {
    "Error parsing file '"@ + path + "': "@ + kind.reason_spec() + " in line "@ + digits_of(
        line_number,
    ) + ": '"@ + line + "'"@
}

impl ParseError {
    /// The error as a sentence.
    pub fn message(&self) -> (r: String)
        ensures
            r@ == parse_error_text(self.path@, self.line_number as nat, self.line@, self.kind),
    {
        let number = write_number(self.line_number as u64);
        String::from_str("Error parsing file '").concat(self.path.as_str()).concat("': ").concat(
            self.kind.reason(),
        ).concat(" in line ").concat(string_of(&number).as_str()).concat(": '").concat(
            self.line.as_str(),
        ).concat("'")
    }
}

/// What holds of the sentinel key at every point of a parse: it names a
/// function that the sentinel matches.
pub open spec fn key_matches(s: ParseState) -> bool {
    match s.sentinel_key {
        Some(id) => s.sentinel matches Some(pattern) && has_prefix(id.func, pattern),
        None => true,
    }
}

/// How a step may change the sentinel and its key: the sentinel stays, a key
/// that is resolved stays, and a key that gets resolved names a function
/// that the sentinel matches.
pub open spec fn keeps_key(s: ParseState, next: ParseState) -> bool {
    &&& next.sentinel == s.sentinel
    &&& s.sentinel_key.is_some() ==> next.sentinel_key == s.sentinel_key
    &&& key_matches(s) ==> key_matches(next)
}

proof fn lemma_cost_step_key(s: ParseState, line: Seq<char>)
    requires
        cost_step(s, line).is_ok(),
    ensures
        keeps_key(s, cost_step(s, line)->Ok_0),
{
}

proof fn lemma_body_step_key(root: Seq<char>, s: ParseState, line: Seq<char>)
    requires
        body_step(root, s, line).is_ok(),
    ensures
        keeps_key(s, body_step(root, s, line)->Ok_0),
{
    match split_once(line, '=') {
        Some((key, value)) => {
            if key == "ob"@ {
            } else if key == "fl"@ || key == "fi"@ || key == "fe"@ {
            } else if key == "fn"@ {
                assert(keeps_key(s, function_step(s, value)));
            } else if key == "cob"@ {
            } else if key == "cfi"@ || key == "cfl"@ {
            } else if key == "cfn"@ {
                assert(keeps_key(s, callee_step(s, value)));
            } else if key == "calls"@ {
                assert(calls_step(s, value).is_ok());
                assert(keeps_key(s, calls_step(s, value)->Ok_0));
            }
        },
        None => {
            if line.len() > 0 && is_digit(line[0]) {
                lemma_cost_step_key(s, line);
            }
        },
    }
}

proof fn lemma_step_key(root: Seq<char>, s: ParseState, raw: Seq<char>)
    requires
        step(root, s, raw).is_ok(),
    ensures
        keeps_key(s, step(root, s, raw)->Ok_0),
{
    let line = trimmed(raw);
    if is_skipped(line) {
    } else if s.calls.is_some() {
        lemma_cost_step_key(s, line);
    } else if s.in_header {
        if header_line(line).is_none() && split_once(line, '=').is_some() {
            lemma_body_step_key(root, ParseState { in_header: false, ..s }, line);
        }
    } else {
        lemma_body_step_key(root, s, line);
    }
}

proof fn lemma_run_key(root: Seq<char>, s: ParseState, lines: Seq<Seq<char>>, from: int)
    requires
        0 <= from,
        run(root, s, lines, from).is_ok(),
    ensures
        keeps_key(s, run(root, s, lines, from)->Ok_0),
    decreases lines.len() - from,
{
    if from < lines.len() {
        lemma_step_key(root, s, lines[from]);
        lemma_run_key(root, step(root, s, lines[from])->Ok_0, lines, from + 1);
    }
}

/// The sentinel key of a parsed trace names a function that the sentinel
/// matches, never another one; without a sentinel there is no key.
pub proof fn lemma_sentinel_resolution(
    root: Seq<char>,
    sentinel: Option<Seq<char>>,
    content: Seq<char>,
)
    requires
        parsed(root, sentinel, content).is_ok(),
    ensures
        match parsed(root, sentinel, content)->Ok_0.sentinel_key {
            Some(id) => sentinel matches Some(pattern) && has_prefix(id.func, pattern),
            None => true,
        },
{
    lemma_run_key(root, initial_state(sentinel), split(content, '\n'), 0);
}

/// The first function that the sentinel matches decides the key: once the
/// key is resolved, the lines that follow do not change it.
pub proof fn lemma_first_match_wins(
    root: Seq<char>,
    s: ParseState,
    lines: Seq<Seq<char>>,
    from: int,
)
    requires
        0 <= from,
        s.sentinel_key.is_some(),
        run(root, s, lines, from).is_ok(),
    ensures
        run(root, s, lines, from)->Ok_0.sentinel_key == s.sentinel_key,
{
    lemma_run_key(root, s, lines, from);
}

/// Naming a function that the sentinel matches while no key is resolved
/// makes the current identity with that name the key.
pub proof fn lemma_match_resolves(s: ParseState, name: Seq<char>)
    requires
        s.sentinel matches Some(pattern) && has_prefix(name, pattern),
        s.sentinel_key.is_none(),
    ensures
        function_step(s, name).sentinel_key == Some(
            IdModel { obj: s.obj, file: s.file, func: name },
        ),
{
}

} // verus!
