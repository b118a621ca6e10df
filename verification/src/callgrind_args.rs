//! The arguments of the profiler: defaults, updates from raw arguments, and
//! the argument list that is handed to the tool.

use std::collections::VecDeque;
use vstd::prelude::*;
use vstd::string::StringExecFns;
use crate::common::{RawArgs, ValgrindTool};
use crate::text::{
    chars_of, has_prefix, is_text, split_at_first, split_once, starts_with_text, string_of,
    string_views, trim, trimmed,
};

verus! {

/// How threads are scheduled under the profiler.
#[derive(Debug, Clone, Copy, PartialEq, Eq, Structural)]
pub enum FairSched {
    Yes,
    No,
    Try,
}

/// An argument whose value is not one of the values it can take.
#[derive(Debug, PartialEq, Eq)]
pub enum ArgsError {
    /// A yes/no argument with another value: the argument and the value
    InvalidBoolArgument(String, String),
    /// `--fair-sched` with a value other than `yes`, `no` and `try`
    InvalidFairSchedArgument(String),
}

/// An argument error with its texts as sequences of characters.
pub enum ArgsErrorModel {
    InvalidBoolArgument(Seq<char>, Seq<char>),
    InvalidFairSchedArgument(Seq<char>),
}

impl View for ArgsError {
    type V = ArgsErrorModel;

    open spec fn view(&self) -> ArgsErrorModel {
        match self {
            ArgsError::InvalidBoolArgument(key, value) => ArgsErrorModel::InvalidBoolArgument(
                key@,
                value@,
            ),
            ArgsError::InvalidFairSchedArgument(value) => ArgsErrorModel::InvalidFairSchedArgument(
                value@,
            ),
        }
    }
}

impl ArgsError {
    /// The error as a sentence.
    pub fn message(&self) -> (r: String)
        ensures
            r@ == (match self@ {
                ArgsErrorModel::InvalidBoolArgument(key, value) => "Invalid argument for "@ + key
                    + ": '"@ + value + "'. Valid arguments are: 'yes', 'no'"@,
                ArgsErrorModel::InvalidFairSchedArgument(value) => "Invalid argument for --fair-sched: '"@
                    + value + "'. Valid arguments are: 'yes', 'no', 'try'"@,
            }),
    {
        match self {
            ArgsError::InvalidBoolArgument(key, value) => String::from_str(
                "Invalid argument for ",
            ).concat(key.as_str()).concat(": '").concat(value.as_str()).concat(
                "'. Valid arguments are: 'yes', 'no'",
            ),
            ArgsError::InvalidFairSchedArgument(value) => String::from_str(
                "Invalid argument for --fair-sched: '",
            ).concat(value.as_str()).concat("'. Valid arguments are: 'yes', 'no', 'try'"),
        }
    }
}

/// The arguments of the profiler.
#[derive(Debug)]
pub struct Args {
    pub i1: String,
    pub d1: String,
    pub ll: String,
    pub cache_sim: bool,
    pub other: Vec<String>,
    pub toggle_collect: VecDeque<String>,
    pub compress_strings: bool,
    pub compress_pos: bool,
    pub verbose: bool,
    pub dump_instr: bool,
    pub dump_line: bool,
    pub combine_dumps: bool,
    pub callgrind_out_file: Option<String>,
    pub log_arg: Option<String>,
    pub trace_children: bool,
    pub separate_threads: bool,
    pub fair_sched: FairSched,
}

/// The arguments of the profiler with their texts as sequences of characters.
pub struct ArgsModel {
    pub i1: Seq<char>,
    pub d1: Seq<char>,
    pub ll: Seq<char>,
    pub cache_sim: bool,
    pub other: Seq<Seq<char>>,
    pub toggle_collect: Seq<Seq<char>>,
    pub compress_strings: bool,
    pub compress_pos: bool,
    pub verbose: bool,
    pub dump_instr: bool,
    pub dump_line: bool,
    pub combine_dumps: bool,
    pub callgrind_out_file: Option<Seq<char>>,
    pub log_arg: Option<Seq<char>>,
    pub trace_children: bool,
    pub separate_threads: bool,
    pub fair_sched: FairSched,
}

/// The text of an optional string.
pub open spec fn optional_text(value: Option<String>) -> Option<Seq<char>> {
    match value {
        Some(text) => Some(text@),
        None => None,
    }
}

impl View for Args {
    type V = ArgsModel;

    open spec fn view(&self) -> ArgsModel {
        ArgsModel {
            i1: self.i1@,
            d1: self.d1@,
            ll: self.ll@,
            cache_sim: self.cache_sim,
            other: string_views(self.other@),
            toggle_collect: string_views(self.toggle_collect@),
            compress_strings: self.compress_strings,
            compress_pos: self.compress_pos,
            verbose: self.verbose,
            dump_instr: self.dump_instr,
            dump_line: self.dump_line,
            combine_dumps: self.combine_dumps,
            callgrind_out_file: optional_text(self.callgrind_out_file),
            log_arg: optional_text(self.log_arg),
            trace_children: self.trace_children,
            separate_threads: self.separate_threads,
            fair_sched: self.fair_sched,
        }
    }
}

/// The arguments before any update. The cache sizes are fixed, so that the
/// counts do not depend on the machine's caches.
pub open spec fn default_args(verbose: bool) -> ArgsModel {
    ArgsModel {
        i1: "32768,8,64"@,
        d1: "32768,8,64"@,
        ll: "8388608,16,64"@,
        cache_sim: true,
        other: Seq::empty(),
        toggle_collect: Seq::empty(),
        compress_strings: false,
        compress_pos: false,
        verbose,
        dump_instr: false,
        dump_line: true,
        combine_dumps: false,
        callgrind_out_file: None,
        log_arg: None,
        trace_children: true,
        separate_threads: true,
        fair_sched: FairSched::Try,
    }
}

/// The truth value that `yes` or `no` writes.
pub open spec fn yesno(value: Seq<char>) -> Option<bool> {
    if trimmed(value) == "yes"@ {
        Some(true)
    } else if trimmed(value) == "no"@ {
        Some(false)
    } else {
        None
    }
}

/// The scheduling that a text names.
pub open spec fn fair_sched_of(value: Seq<char>) -> Option<FairSched> {
    if value == "no"@ {
        Some(FairSched::No)
    } else if value == "yes"@ {
        Some(FairSched::Yes)
    } else if value == "try"@ {
        Some(FairSched::Try)
    } else {
        None
    }
}

/// The text that names a scheduling.
pub open spec fn fair_sched_text(sched: FairSched) -> Seq<char> {
    match sched {
        FairSched::Yes => "yes"@,
        FairSched::No => "no"@,
        FairSched::Try => "try"@,
    }
}

/// The options with a value that are left to the benchmark runner and
/// therefore read over.
pub open spec fn ignored_option(key: Seq<char>) -> bool {
    key == "--combine-dumps"@ || key == "--callgrind-out-file"@ || key == "--compress-strings"@
        || key == "--compress-pos"@ || key == "--log-file"@ || key == "--log-fd"@ || key
        == "--log-socket"@ || key == "--xml"@ || key == "--xml-file"@ || key == "--xml-fd"@ || key
        == "--xml-socket"@ || key == "--xml-user-comment"@ || key == "--tool"@
}

/// The flags that are read over.
pub open spec fn ignored_flag(arg: Seq<char>) -> bool {
    arg == "-h"@ || arg == "--help"@ || arg == "--help-dyn-options"@ || arg == "--help-debug"@
        || arg == "--version"@ || arg == "-q"@ || arg == "--quiet"@
}

/// The outcome of a yes/no option.
pub open spec fn yesno_or_error(key: Seq<char>, value: Seq<char>) -> Result<bool, ArgsErrorModel> {
    match yesno(value) {
        Some(flag) => Ok(flag),
        None => Err(ArgsErrorModel::InvalidBoolArgument(key, value)),
    }
}

/// What an option with a value changes.
pub open spec fn applied_option(s: ArgsModel, arg: Seq<char>, key: Seq<char>, value: Seq<char>)
    -> Result<ArgsModel, ArgsErrorModel> {
    if key == "--I1"@ {
        Ok(ArgsModel { i1: value, ..s })
    } else if key == "--D1"@ {
        Ok(ArgsModel { d1: value, ..s })
    } else if key == "--LL"@ {
        Ok(ArgsModel { ll: value, ..s })
    } else if key == "--cache-sim"@ {
        match yesno_or_error(key, value) {
            Ok(flag) => Ok(ArgsModel { cache_sim: flag, ..s }),
            Err(e) => Err(e),
        }
    } else if key == "--toggle-collect"@ {
        Ok(ArgsModel { toggle_collect: s.toggle_collect.push(value), ..s })
    } else if key == "--dump-instr"@ {
        match yesno_or_error(key, value) {
            Ok(flag) => Ok(ArgsModel { dump_instr: flag, ..s }),
            Err(e) => Err(e),
        }
    } else if key == "--dump-line"@ {
        match yesno_or_error(key, value) {
            Ok(flag) => Ok(ArgsModel { dump_line: flag, ..s }),
            Err(e) => Err(e),
        }
    } else if key == "--trace-children"@ {
        match yesno_or_error(key, value) {
            Ok(flag) => Ok(ArgsModel { trace_children: flag, ..s }),
            Err(e) => Err(e),
        }
    } else if key == "--separate-threads"@ {
        match yesno_or_error(key, value) {
            Ok(flag) => Ok(ArgsModel { separate_threads: flag, ..s }),
            Err(e) => Err(e),
        }
    } else if key == "--fair-sched"@ {
        match fair_sched_of(value) {
            Some(sched) => Ok(ArgsModel { fair_sched: sched, ..s }),
            None => Err(ArgsErrorModel::InvalidFairSchedArgument(value)),
        }
    } else if ignored_option(key) {
        Ok(s)
    } else {
        Ok(ArgsModel { other: s.other.push(arg), ..s })
    }
}

/// What one raw argument changes: a known option sets its field, an option
/// left to the runner and a positional argument change nothing, and any
/// other option or flag is kept as it is to be handed on.
pub open spec fn applied(s: ArgsModel, arg: Seq<char>) -> Result<ArgsModel, ArgsErrorModel> {
    match split_once(trimmed(arg), '=') {
        Some((k, v)) => applied_option(s, arg, trimmed(k), trimmed(v)),
        None => if arg == "-v"@ || arg == "--verbose"@ {
            Ok(ArgsModel { verbose: true, ..s })
        } else if ignored_flag(trimmed(arg)) {
            Ok(s)
        } else if has_prefix(arg, "-"@) {
            Ok(ArgsModel { other: s.other.push(arg), ..s })
        } else {
            Ok(s)
        },
    }
}

/// Whether a raw argument is one of those that are read over because they
/// are left to the benchmark runner.
pub open spec fn ignored(arg: Seq<char>) -> bool {
    match split_once(trimmed(arg), '=') {
        Some((k, v)) => ignored_option(trimmed(k)),
        None => arg != "-v"@ && arg != "--verbose"@ && ignored_flag(trimmed(arg)),
    }
}

/// The arguments after the raw arguments from index `from` on were applied
/// in turn, up to the first one that is rejected, and that one's error.
pub open spec fn progress(s: ArgsModel, args: Seq<Seq<char>>, from: int) -> (
    ArgsModel,
    Option<ArgsErrorModel>,
)
    decreases args.len() - from,
{
    if from < 0 || from >= args.len() {
        (s, None)
    } else {
        match applied(s, args[from]) {
            Ok(next) => progress(next, args, from + 1),
            Err(e) => (s, Some(e)),
        }
    }
}

/// The same for several lists of raw arguments, one list after the other.
pub open spec fn progress_lists(s: ArgsModel, lists: Seq<RawArgs>, from: int) -> (
    ArgsModel,
    Option<ArgsErrorModel>,
)
    decreases lists.len() - from,
{
    if from < 0 || from >= lists.len() {
        (s, None)
    } else {
        let (next, error) = progress(s, string_views(lists[from].0@), 0);
        if error.is_some() {
            (next, error)
        } else {
            progress_lists(next, lists, from + 1)
        }
    }
}

/// The text of a truth value as an argument's value.
pub open spec fn yesno_text(flag: bool) -> Seq<char> {
    if flag {
        "yes"@
    } else {
        "no"@
    }
}

/// The texts with `prefix` before each.
pub open spec fn prefixed_all(prefix: Seq<char>, texts: Seq<Seq<char>>) -> Seq<Seq<char>> {
    Seq::new(texts.len(), |i: int| prefix + texts[i])
}

/// The argument list that stands for the arguments: the fixed options in a
/// fixed order, then one `--toggle-collect` per toggle, then the arguments
/// that are handed on as they are.
pub open spec fn tool_options(a: ArgsModel) -> Seq<Seq<char>> {
    seq![
        "--I1="@ + a.i1,
        "--D1="@ + a.d1,
        "--LL="@ + a.ll,
        "--cache-sim="@ + yesno_text(a.cache_sim),
        "--compress-strings="@ + yesno_text(a.compress_strings),
        "--compress-pos="@ + yesno_text(a.compress_pos),
        "--dump-line="@ + yesno_text(a.dump_line),
        "--dump-instr="@ + yesno_text(a.dump_instr),
        "--combine-dumps="@ + yesno_text(a.combine_dumps),
        "--separate-threads="@ + yesno_text(a.separate_threads),
    ] + prefixed_all("--toggle-collect="@, a.toggle_collect) + a.other
}

/// The arguments of one tool run.
#[derive(Debug, PartialEq, Eq)]
pub struct ToolArgs {
    pub tool: ValgrindTool,
    pub output_paths: Vec<String>,
    pub log_path: Option<String>,
    pub error_exitcode: String,
    pub verbose: bool,
    pub trace_children: bool,
    pub fair_sched: FairSched,
    pub other: Vec<String>,
}

/// Reads `yes` or `no`.
pub fn yesno_to_bool(value: &Vec<char>) -> (r: Option<bool>)
    ensures
        r == yesno(value@),
{
    let text = trim(value);
    if is_text(&text, "yes") {
        Some(true)
    } else if is_text(&text, "no") {
        Some(false)
    } else {
        None
    }
}

/// Writes a truth value as `yes` or `no`.
pub fn bool_to_yesno(flag: bool) -> (r: &'static str)
    ensures
        r@ == yesno_text(flag),
{
    if flag {
        "yes"
    } else {
        "no"
    }
}

fn read_yesno(key: &Vec<char>, value: &Vec<char>) -> (r: Result<bool, ArgsError>)
    ensures
        match r {
            Ok(flag) => yesno_or_error(key@, value@) == Ok::<bool, ArgsErrorModel>(flag),
            Err(e) => yesno_or_error(key@, value@) == Err::<bool, ArgsErrorModel>(e@),
        },
{
    match yesno_to_bool(value) {
        Some(flag) => Ok(flag),
        None => Err(ArgsError::InvalidBoolArgument(string_of(key), string_of(value))),
    }
}

fn is_ignored_option(key: &Vec<char>) -> (r: bool)
    ensures
        r == ignored_option(key@),
{
    is_text(key, "--combine-dumps") || is_text(key, "--callgrind-out-file") || is_text(
        key,
        "--compress-strings",
    ) || is_text(key, "--compress-pos") || is_text(key, "--log-file") || is_text(key, "--log-fd")
        || is_text(key, "--log-socket") || is_text(key, "--xml") || is_text(key, "--xml-file")
        || is_text(key, "--xml-fd") || is_text(key, "--xml-socket") || is_text(
        key,
        "--xml-user-comment",
    ) || is_text(key, "--tool")
}

fn is_ignored_flag(arg: &Vec<char>) -> (r: bool)
    ensures
        r == ignored_flag(arg@),
{
    is_text(arg, "-h") || is_text(arg, "--help") || is_text(arg, "--help-dyn-options") || is_text(
        arg,
        "--help-debug",
    ) || is_text(arg, "--version") || is_text(arg, "-q") || is_text(arg, "--quiet")
}

/// Whether a raw argument is read over because it is left to the benchmark
/// runner. Such an argument changes nothing; a caller may want to tell the
/// user.
pub fn is_ignored(arg: &str) -> (r: bool)
    ensures
        r == ignored(arg@),
{
    let chars = chars_of(arg);
    let text = trim(&chars);
    match split_at_first(&text, '=') {
        Some((k, _)) => is_ignored_option(&trim(&k)),
        None => !is_text(&chars, "-v") && !is_text(&chars, "--verbose") && is_ignored_flag(&text),
    }
}

impl FairSched {
    /// Reads `yes`, `no` or `try`.
    pub fn from_str(value: &str) -> (r: Result<FairSched, ArgsError>)
        ensures
            match r {
                Ok(sched) => fair_sched_of(value@) == Some(sched),
                Err(e) => fair_sched_of(value@).is_none() && e@
                    == ArgsErrorModel::InvalidFairSchedArgument(value@),
            },
    {
        let text = chars_of(value);
        if is_text(&text, "no") {
            Ok(FairSched::No)
        } else if is_text(&text, "yes") {
            Ok(FairSched::Yes)
        } else if is_text(&text, "try") {
            Ok(FairSched::Try)
        } else {
            Err(ArgsError::InvalidFairSchedArgument(value.to_owned()))
        }
    }

    /// The text that names the scheduling.
    pub fn as_str(self) -> (r: &'static str)
        ensures
            r@ == fair_sched_text(self),
    {
        match self {
            FairSched::Yes => "yes",
            FairSched::No => "no",
            FairSched::Try => "try",
        }
    }
}

impl Args {
    /// The default arguments; `verbose` says whether the tool reports what it does.
    pub fn new(verbose: bool) -> (r: Self)
        ensures
            r@ == default_args(verbose),
    {
        let r = Args {
            i1: String::from_str("32768,8,64"),
            d1: String::from_str("32768,8,64"),
            ll: String::from_str("8388608,16,64"),
            cache_sim: true,
            other: Vec::new(),
            toggle_collect: VecDeque::new(),
            compress_strings: false,
            compress_pos: false,
            verbose,
            dump_instr: false,
            dump_line: true,
            combine_dumps: false,
            callgrind_out_file: None,
            log_arg: None,
            trace_children: true,
            separate_threads: true,
            fair_sched: FairSched::Try,
        };
        assert(string_views(r.other@) =~= Seq::empty());
        assert(string_views(r.toggle_collect@) =~= Seq::empty());
        r
    }

    fn apply_option(&mut self, arg: &String, key: &Vec<char>, value: &Vec<char>) -> (r: Result<
        (),
        ArgsError,
    >)
        ensures
            match r {
                Ok(_) => applied_option(old(self)@, arg@, key@, value@) == Ok::<
                    ArgsModel,
                    ArgsErrorModel,
                >(final(self)@),
                Err(e) => applied_option(old(self)@, arg@, key@, value@) == Err::<
                    ArgsModel,
                    ArgsErrorModel,
                >(e@) && final(self)@ == old(self)@,
            },
    {
        if is_text(key, "--I1") {
            self.i1 = string_of(value);
        } else if is_text(key, "--D1") {
            self.d1 = string_of(value);
        } else if is_text(key, "--LL") {
            self.ll = string_of(value);
        } else if is_text(key, "--cache-sim") {
            match read_yesno(key, value) {
                Ok(flag) => {
                    self.cache_sim = flag;
                },
                Err(e) => {
                    return Err(e);
                },
            }
        } else if is_text(key, "--toggle-collect") {
            let ghost before = string_views(self.toggle_collect@);
            self.toggle_collect.push_back(string_of(value));
            assert(string_views(self.toggle_collect@) =~= before.push(value@));
        } else if is_text(key, "--dump-instr") {
            match read_yesno(key, value) {
                Ok(flag) => {
                    self.dump_instr = flag;
                },
                Err(e) => {
                    return Err(e);
                },
            }
        } else if is_text(key, "--dump-line") {
            match read_yesno(key, value) {
                Ok(flag) => {
                    self.dump_line = flag;
                },
                Err(e) => {
                    return Err(e);
                },
            }
        } else if is_text(key, "--trace-children") {
            match read_yesno(key, value) {
                Ok(flag) => {
                    self.trace_children = flag;
                },
                Err(e) => {
                    return Err(e);
                },
            }
        } else if is_text(key, "--separate-threads") {
            match read_yesno(key, value) {
                Ok(flag) => {
                    self.separate_threads = flag;
                },
                Err(e) => {
                    return Err(e);
                },
            }
        } else if is_text(key, "--fair-sched") {
            let text = string_of(value);
            match FairSched::from_str(text.as_str()) {
                Ok(sched) => {
                    self.fair_sched = sched;
                },
                Err(e) => {
                    return Err(e);
                },
            }
        } else if is_ignored_option(key) {
        } else {
            let ghost before = string_views(self.other@);
            self.other.push(arg.clone());
            assert(string_views(self.other@) =~= before.push(arg@));
        }
        Ok(())
    }

    fn apply(&mut self, arg: &String) -> (r: Result<(), ArgsError>)
        ensures
            match r {
                Ok(_) => applied(old(self)@, arg@) == Ok::<ArgsModel, ArgsErrorModel>(final(self)@),
                Err(e) => applied(old(self)@, arg@) == Err::<ArgsModel, ArgsErrorModel>(e@)
                    && final(self)@ == old(self)@,
            },
    {
        let chars = chars_of(arg.as_str());
        let text = trim(&chars);
        match split_at_first(&text, '=') {
            Some((k, v)) => {
                let key = trim(&k);
                let value = trim(&v);
                self.apply_option(arg, &key, &value)
            },
            None => {
                if is_text(&chars, "-v") || is_text(&chars, "--verbose") {
                    self.verbose = true;
                } else if is_ignored_flag(&text) {
                } else if starts_with_text(&chars, "-") {
                    let ghost before = string_views(self.other@);
                    self.other.push(arg.clone());
                    assert(string_views(self.other@) =~= before.push(arg@));
                }
                Ok(())
            },
        }
    }

    /// Applies raw arguments in turn. The first argument with a value that
    /// it cannot take ends the update with its error; the arguments before
    /// it stay applied.
    pub fn try_update(&mut self, args: &Vec<String>) -> (r: Result<(), ArgsError>)
        ensures
            final(self)@ == progress(old(self)@, string_views(args@), 0).0,
            match r {
                Ok(_) => progress(old(self)@, string_views(args@), 0).1.is_none(),
                Err(e) => progress(old(self)@, string_views(args@), 0).1 == Some(e@),
            },
    {
        let mut i: usize = 0;
        while i < args.len()
            invariant
                i <= args.len(),
                progress(old(self)@, string_views(args@), 0) == progress(
                    self@,
                    string_views(args@),
                    i as int,
                ),
            decreases args.len() - i,
        {
            assert(string_views(args@)[i as int] == args@[i as int]@);
            match self.apply(&args[i]) {
                Ok(_) => {},
                Err(e) => {
                    return Err(e);
                },
            }
            i += 1;
        }
        Ok(())
    }

    /// The default arguments updated with the given lists of raw arguments,
    /// one list after the other.
    pub fn try_from_raw_args(args: &Vec<RawArgs>) -> (r: Result<Self, ArgsError>)
        ensures
            match r {
                Ok(updated) => progress_lists(default_args(false), args@, 0) == (
                    updated@,
                    None::<ArgsErrorModel>,
                ),
                Err(e) => progress_lists(default_args(false), args@, 0).1 == Some(e@),
            },
    {
        let mut default = Args::new(false);
        let mut i: usize = 0;
        while i < args.len()
            invariant
                i <= args.len(),
                progress_lists(default_args(false), args@, 0) == progress_lists(
                    default@,
                    args@,
                    i as int,
                ),
            decreases args.len() - i,
        {
            match default.try_update(&args[i].0) {
                Ok(_) => {},
                Err(e) => {
                    return Err(e);
                },
            }
            i += 1;
        }
        Ok(default)
    }

    /// Puts a toggle before the toggles that are already there.
    pub fn insert_toggle_collect(&mut self, arg: &str)
        ensures
            final(self)@ == (ArgsModel {
                toggle_collect: seq![arg@] + old(self)@.toggle_collect,
                ..old(self)@
            }),
    {
        self.toggle_collect.push_front(arg.to_owned());
        assert(string_views(self.toggle_collect@) =~= seq![arg@] + string_views(
            old(self).toggle_collect@,
        ));
    }
}

impl Default for Args {
    fn default() -> (r: Self)
        ensures
            r@ == default_args(false),
    {
        Args::new(false)
    }
}

fn option(name: &str, value: &str) -> (r: String)
    ensures
        r@ == name@ + value@,
{
    String::from_str(name).concat(value)
}

impl ToolArgs {
    /// The arguments of a profiler run. Errors of the benchmarked program do
    /// not change the exit code.
    pub fn from_callgrind_args(value: Args) -> (r: ToolArgs)
        ensures
            r.tool == ValgrindTool::Callgrind,
            string_views(r.output_paths@) == (match value@.callgrind_out_file {
                Some(path) => seq![path],
                None => Seq::<Seq<char>>::empty(),
            }),
            optional_text(r.log_path) == value@.log_arg,
            r.error_exitcode@ == "0"@,
            r.verbose == value.verbose,
            r.trace_children == value.trace_children,
            r.fair_sched == value.fair_sched,
            string_views(r.other@) == tool_options(value@),
    {
        let mut other: Vec<String> = Vec::new();
        other.push(option("--I1=", value.i1.as_str()));
        other.push(option("--D1=", value.d1.as_str()));
        other.push(option("--LL=", value.ll.as_str()));
        other.push(option("--cache-sim=", bool_to_yesno(value.cache_sim)));
        other.push(option("--compress-strings=", bool_to_yesno(value.compress_strings)));
        other.push(option("--compress-pos=", bool_to_yesno(value.compress_pos)));
        other.push(option("--dump-line=", bool_to_yesno(value.dump_line)));
        other.push(option("--dump-instr=", bool_to_yesno(value.dump_instr)));
        other.push(option("--combine-dumps=", bool_to_yesno(value.combine_dumps)));
        other.push(option("--separate-threads=", bool_to_yesno(value.separate_threads)));
        let ghost fixed = string_views(other@);
        let ghost toggles = string_views(value.toggle_collect@);
        let ghost rest = string_views(value.other@);
        assert(fixed + prefixed_all("--toggle-collect="@, toggles) + rest =~= tool_options(value@));
        let mut i: usize = 0;
        assert(prefixed_all("--toggle-collect="@, toggles).take(0) =~= Seq::empty());
        assert(fixed + Seq::<Seq<char>>::empty() =~= fixed);
        while i < value.toggle_collect.len()
            invariant
                i <= value.toggle_collect.len(),
                toggles == string_views(value.toggle_collect@),
                string_views(other@) == fixed + prefixed_all("--toggle-collect="@, toggles).take(
                    i as int,
                ),
            decreases value.toggle_collect.len() - i,
        {
            let ghost before = string_views(other@);
            other.push(option("--toggle-collect=", value.toggle_collect[i].as_str()));
            assert(string_views(other@) =~= before.push(
                "--toggle-collect="@ + value.toggle_collect@[i as int]@,
            ));
            i += 1;
            assert(string_views(other@) =~= fixed + prefixed_all(
                "--toggle-collect="@,
                toggles,
            ).take(i as int));
        }
        assert(prefixed_all("--toggle-collect="@, toggles).take(toggles.len() as int)
            =~= prefixed_all("--toggle-collect="@, toggles));
        let ghost middle = string_views(other@);
        let mut j: usize = 0;
        assert(rest.take(0) =~= Seq::empty());
        assert(middle + Seq::<Seq<char>>::empty() =~= middle);
        while j < value.other.len()
            invariant
                j <= value.other.len(),
                rest == string_views(value.other@),
                string_views(other@) == middle + rest.take(j as int),
            decreases value.other.len() - j,
        {
            let ghost before = string_views(other@);
            other.push(value.other[j].clone());
            assert(string_views(other@) =~= before.push(value.other@[j as int]@));
            j += 1;
            assert(string_views(other@) =~= middle + rest.take(j as int));
        }
        assert(rest.take(rest.len() as int) =~= rest);
        let output_paths: Vec<String> = match &value.callgrind_out_file {
            Some(path) => {
                let paths = vec![path.clone()];
                assert(string_views(paths@) =~= seq![path@]);
                paths
            },
            None => {
                let paths: Vec<String> = Vec::new();
                assert(string_views(paths@) =~= Seq::<Seq<char>>::empty());
                paths
            },
        };
        let log_path = match &value.log_arg {
            Some(path) => Some(path.clone()),
            None => None,
        };
        ToolArgs {
            tool: ValgrindTool::Callgrind,
            output_paths,
            log_path,
            error_exitcode: String::from_str("0"),
            verbose: value.verbose,
            trace_children: value.trace_children,
            fair_sched: value.fair_sched,
            other,
        }
    }
}

} // verus!
