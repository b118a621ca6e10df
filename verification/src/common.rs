//! Configuration values shared by library and binary benchmarks.

use vstd::prelude::*;
use crate::event_kind::EventKind;
use crate::text::{
    append_chars, chars_of, has_prefix, starts_with, string_of, string_views, trim, trimmed,
};

verus! {

/// The kinds of flamegraph that can be created.
#[derive(Debug, Clone, Copy, PartialEq, Eq, Structural)]
pub enum FlamegraphKind {
    /// One flamegraph of the new counts
    Regular,
    /// A flamegraph of the difference to the baseline
    Differential,
    /// Both
    All,
    /// No flamegraph
    Off,
}

/// The direction in which a flamegraph grows.
#[derive(Debug, Clone, Copy, PartialEq, Eq, Structural)]
pub enum Direction {
    TopToBottom,
    BottomToTop,
}

/// The profiling tools that can be run.
#[derive(Debug, Clone, Copy, PartialEq, Eq, Hash, Structural)]
pub enum ValgrindTool {
    Callgrind,
    Memcheck,
    Helgrind,
    DRD,
    Massif,
    DHAT,
    BBV,
}

/// Command-line arguments that are handed to a tool as they are.
#[derive(Debug, PartialEq, Eq)]
pub struct RawArgs(pub Vec<String>);

/// An argument as it is stored: without surrounding white space, and with
/// `--` before it unless it starts with `-`.
pub open spec fn as_flag(arg: Seq<char>) -> Seq<char> {
    let text = trimmed(arg);
    if has_prefix(text, seq!['-']) {
        text
    } else {
        seq!['-', '-'] + text
    }
}

/// The first `n` arguments as they are stored; blank arguments are left out.
pub open spec fn as_flags(args: Seq<Seq<char>>, n: int) -> Seq<Seq<char>>
    decreases n,
{
    if n <= 0 {
        Seq::empty()
    } else if trimmed(args[n - 1]).len() == 0 {
        as_flags(args, n - 1)
    } else {
        as_flags(args, n - 1).push(as_flag(args[n - 1]))
    }
}

impl RawArgs {
    /// The given arguments, as they are.
    pub fn new(args: Vec<String>) -> (r: Self)
        ensures
            r.0 == args,
    {
        RawArgs(args)
    }

    /// Whether there is no argument.
    pub fn is_empty(&self) -> (r: bool)
        ensures
            r == (self.0@.len() == 0),
    {
        self.0.len() == 0
    }

    /// Appends the arguments that are not blank, each trimmed and with `--`
    /// before it unless it starts with `-`.
    pub fn extend_ignore_flag(&mut self, args: &Vec<String>)
        ensures
            string_views(final(self).0@) == string_views(old(self).0@) + as_flags(
                string_views(args@),
                args@.len() as int,
            ),
    {
        let ghost before = string_views(self.0@);
        let mut i: usize = 0;
        assert(before + Seq::<Seq<char>>::empty() =~= before);
        while i < args.len()
            invariant
                i <= args.len(),
                before == string_views(old(self).0@),
                string_views(self.0@) == before + as_flags(string_views(args@), i as int),
            decreases args.len() - i,
        {
            let arg = chars_of(args[i].as_str());
            assert(string_views(args@)[i as int] == arg@);
            let text = trim(&arg);
            if text.len() > 0 {
                let dash: Vec<char> = vec!['-'];
                assert(dash@ =~= seq!['-']);
                let flag = if starts_with(&text, &dash) {
                    text
                } else {
                    let mut flag: Vec<char> = vec!['-', '-'];
                    assert(flag@ =~= seq!['-', '-']);
                    append_chars(&mut flag, &text);
                    flag
                };
                let ghost stored = string_views(self.0@);
                self.0.push(string_of(&flag));
                assert(string_views(self.0@) =~= stored.push(flag@));
                assert(before + as_flags(string_views(args@), i as int).push(flag@) =~= (before
                    + as_flags(string_views(args@), i as int)).push(flag@));
            }
            i += 1;
        }
    }
}

/// How the flamegraphs of a benchmark are made.
#[derive(Debug)]
pub struct FlamegraphConfig {
    pub kind: Option<FlamegraphKind>,
    pub negate_differential: Option<bool>,
    pub normalize_differential: Option<bool>,
    pub event_kinds: Option<Vec<EventKind>>,
    pub direction: Option<Direction>,
    pub title: Option<String>,
    pub subtitle: Option<String>,
}

impl Default for FlamegraphConfig {
    fn default() -> (r: Self)
        ensures
            r.kind.is_none(),
            r.negate_differential.is_none(),
            r.normalize_differential.is_none(),
            r.event_kinds.is_none(),
            r.direction.is_none(),
            r.title.is_none(),
            r.subtitle.is_none(),
    {
        FlamegraphConfig {
            kind: None,
            negate_differential: None,
            normalize_differential: None,
            event_kinds: None,
            direction: None,
            title: None,
            subtitle: None,
        }
    }
}

impl FlamegraphConfig {
    /// Chooses which flamegraphs are created.
    pub fn kind(&mut self, kind: FlamegraphKind) -> (ret: &mut Self)
        ensures
            *ret == (FlamegraphConfig { kind: Some(kind), ..*old(self) }),
            *final(self) == *final(ret),
    {
        self.kind = Some(kind);
        self
    }

    /// Shows the differential flamegraph from the view of the baseline.
    pub fn negate_differential(&mut self, negate_differential: bool) -> (ret: &mut Self)
        ensures
            *ret == (FlamegraphConfig {
                negate_differential: Some(negate_differential),
                ..*old(self)
            }),
            *final(self) == *final(ret),
    {
        self.negate_differential = Some(negate_differential);
        self
    }

    /// Scales the first profile of a differential flamegraph to the second.
    pub fn normalize_differential(&mut self, normalize_differential: bool) -> (ret: &mut Self)
        ensures
            *ret == (FlamegraphConfig {
                normalize_differential: Some(normalize_differential),
                ..*old(self)
            }),
            *final(self) == *final(ret),
    {
        self.normalize_differential = Some(normalize_differential);
        self
    }

    /// Chooses the counters for each of which a flamegraph is created.
    pub fn event_kinds(&mut self, event_kinds: Vec<EventKind>) -> (ret: &mut Self)
        ensures
            *ret == (FlamegraphConfig { event_kinds: Some(event_kinds), ..*old(self) }),
            *final(self) == *final(ret),
    {
        self.event_kinds = Some(event_kinds);
        self
    }

    /// Chooses the direction in which the flamegraph grows.
    pub fn direction(&mut self, direction: Direction) -> (ret: &mut Self)
        ensures
            *ret == (FlamegraphConfig { direction: Some(direction), ..*old(self) }),
            *final(self) == *final(ret),
    {
        self.direction = Some(direction);
        self
    }

    /// Replaces the title of the flamegraph.
    pub fn title(&mut self, title: String) -> (ret: &mut Self)
        ensures
            *ret == (FlamegraphConfig { title: Some(title), ..*old(self) }),
            *final(self) == *final(ret),
    {
        self.title = Some(title);
        self
    }

    /// Replaces the subtitle of the flamegraph.
    pub fn subtitle(&mut self, subtitle: String) -> (ret: &mut Self)
        ensures
            *ret == (FlamegraphConfig { subtitle: Some(subtitle), ..*old(self) }),
            *final(self) == *final(ret),
    {
        self.subtitle = Some(subtitle);
        self
    }
}

/// How the results are written to the terminal.
#[derive(Debug, Clone, Copy, PartialEq, Eq, Structural)]
pub struct OutputFormat {
    /// Unset, or the length to which descriptions are cut; `Some(None)` for no cut.
    pub truncate_description: Option<Option<usize>>,
    pub show_intermediate: Option<bool>,
    pub show_grid: Option<bool>,
}

impl Default for OutputFormat {
    fn default() -> (r: Self)
        ensures
            r == (OutputFormat {
                truncate_description: None,
                show_intermediate: None,
                show_grid: None,
            }),
    {
        OutputFormat { truncate_description: None, show_intermediate: None, show_grid: None }
    }
}

impl OutputFormat {
    /// Sets the length to which descriptions are cut; `None` switches the cut off.
    pub fn truncate_description(&mut self, value: Option<usize>) -> (ret: &mut Self)
        ensures
            *ret == (OutputFormat { truncate_description: Some(value), ..*old(self) }),
            *final(self) == *final(ret),
    {
        self.truncate_description = Some(value);
        self
    }

    /// Shows the counts of every part, thread and subprocess besides their total.
    pub fn show_intermediate(&mut self, value: bool) -> (ret: &mut Self)
        ensures
            *ret == (OutputFormat { show_intermediate: Some(value), ..*old(self) }),
            *final(self) == *final(ret),
    {
        self.show_intermediate = Some(value);
        self
    }

    /// Draws guiding lines around the output.
    pub fn show_grid(&mut self, value: bool) -> (ret: &mut Self)
        ensures
            *ret == (OutputFormat { show_grid: Some(value), ..*old(self) }),
            *final(self) == *final(ret),
    {
        self.show_grid = Some(value);
        self
    }
}

/// A profiling tool to run besides the default one, and its arguments.
#[derive(Debug, PartialEq, Eq)]
pub struct Tool {
    pub kind: ValgrindTool,
    pub enable: Option<bool>,
    pub show_log: Option<bool>,
    pub raw_args: RawArgs,
}

impl Tool {
    /// The configuration of `tool` with nothing set.
    pub fn new(tool: ValgrindTool) -> (r: Self)
        ensures
            r.kind == tool,
            r.enable.is_none(),
            r.show_log.is_none(),
            r.raw_args.0@.len() == 0,
    {
        Tool { kind: tool, enable: None, show_log: None, raw_args: RawArgs(Vec::new()) }
    }

    /// Sets whether the tool is run.
    pub fn enable(&mut self, value: bool) -> (ret: &mut Self)
        ensures
            *ret == (Tool { enable: Some(value), ..*old(self) }),
            *final(self) == *final(ret),
    {
        self.enable = Some(value);
        self
    }

    /// Appends arguments for the tool: blank ones are left out, the others
    /// are trimmed and get `--` before them unless they start with `-`.
    pub fn args(&mut self, args: &Vec<String>) -> (ret: &mut Self)
        ensures
            string_views(ret.raw_args.0@) == string_views(old(self).raw_args.0@) + as_flags(
                string_views(args@),
                args@.len() as int,
            ),
            ret.kind == old(self).kind,
            ret.enable == old(self).enable,
            ret.show_log == old(self).show_log,
            *final(self) == *final(ret),
    {
        self.raw_args.extend_ignore_flag(args);
        self
    }
}

/// The tools to run, at most one configuration per tool.
#[derive(Debug, PartialEq, Eq)]
pub struct Tools(pub Vec<Tool>);

/// The index of the first configuration of the tool `kind`, or the length.
pub open spec fn tool_index(tools: Seq<Tool>, kind: ValgrindTool, from: int) -> int
    decreases tools.len() - from,
{
    if from < 0 || from >= tools.len() {
        tools.len() as int
    } else if tools[from].kind == kind {
        from
    } else {
        tool_index(tools, kind, from + 1)
    }
}

/// The tools after `tool` was configured: the first earlier configuration
/// of the same tool is dropped, the new one comes last.
pub open spec fn with_tool(tools: Seq<Tool>, tool: Tool) -> Seq<Tool> {
    let at = tool_index(tools, tool.kind, 0);
    if at < tools.len() {
        tools.remove(at).push(tool)
    } else {
        tools.push(tool)
    }
}

/// The tools after the first `n` of `added` were configured in turn.
pub open spec fn with_tools(tools: Seq<Tool>, added: Seq<Tool>, n: int) -> Seq<Tool>
    decreases n,
{
    if n <= 0 {
        tools
    } else {
        with_tool(with_tools(tools, added, n - 1), added[n - 1])
    }
}

impl Default for Tools {
    fn default() -> (r: Self)
        ensures
            r.0@.len() == 0,
    {
        Tools(Vec::new())
    }
}

impl Tools {
    /// Configures a tool, in place of an earlier configuration of the same tool.
    pub fn update(&mut self, tool: Tool)
        ensures
            final(self).0@ == with_tool(old(self).0@, tool),
    {
        let mut i: usize = 0;
        while i < self.0.len() && self.0[i].kind != tool.kind
            invariant
                i <= self.0.len(),
                self.0@ == old(self).0@,
                tool_index(self.0@, tool.kind, 0) == tool_index(self.0@, tool.kind, i as int),
            decreases self.0.len() - i,
        {
            i += 1;
        }
        if i < self.0.len() {
            self.0.remove(i);
        }
        self.0.push(tool);
    }

    /// Configures each of the tools in turn.
    pub fn update_all(&mut self, tools: Vec<Tool>)
        ensures
            final(self).0@ == with_tools(old(self).0@, tools@, tools@.len() as int),
    {
        let mut rest = tools;
        let ghost all = rest@;
        assert(all.len() == rest.len());
        let mut taken: Vec<Tool> = Vec::new();
        // the tools are taken from the end, so they are put in order first
        while rest.len() > 0
            invariant
                all.len() <= usize::MAX,
                rest@.len() + taken@.len() == all.len(),
                forall|j: int| 0 <= j < rest@.len() ==> rest@[j] == all[j],
                forall|j: int|
                    0 <= j < taken@.len() ==> taken@[j] == all[all.len() - 1 - j],
            decreases rest.len(),
        {
            let tool = rest.pop().unwrap();
            taken.push(tool);
        }
        let mut done: usize = 0;
        while taken.len() > 0
            invariant
                all.len() <= usize::MAX,
                done + taken@.len() == all.len(),
                forall|j: int|
                    0 <= j < taken@.len() ==> taken@[j] == all[all.len() - 1 - j],
                self.0@ == with_tools(old(self).0@, all, done as int),
            decreases taken.len(),
        {
            let tool = taken.pop().unwrap();
            self.update(tool);
            done += 1;
        }
    }
}

/// `std::hint::black_box` is the identity function.
pub assume_specification<T>[ std::hint::black_box::<T> ](dummy: T) -> (r: T)
    ensures
        r == dummy,
;

/// Hands its argument back in a way that the optimizer cannot see through.
pub fn black_box<T>(dummy: T) -> (r: T)
    ensures
        r == dummy,
{
    std::hint::black_box(dummy)
}

} // verus!
