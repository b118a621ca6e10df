//! The options of a benchmark run, as the user gave them after `--`.

use vstd::prelude::*;
use vstd::string::StringExecFns;
use crate::common::RawArgs;
use crate::event_kind::EventKind;
use crate::percent::Percent;
use crate::regression::{parse_regression_config, regression_limits, RegressionConfig};
use crate::text::{
    chars_of, contains, contains_text, is_text, lowered, quoted, same_string, string_views,
    to_lower,
};

verus! {

/// Selects the benchmarks to run.
#[derive(Debug, PartialEq, Eq)]
pub enum BenchmarkFilter {
    /// Benchmarks whose name holds this text
    Name(String),
}

impl Clone for BenchmarkFilter {
    fn clone(&self) -> (r: Self)
        ensures
            r.name() == self.name(),
    {
        match self {
            BenchmarkFilter::Name(name) => BenchmarkFilter::Name(name.clone()),
        }
    }
}

impl BenchmarkFilter {
    /// The text that a benchmark's name must hold.
    pub open spec fn name(&self) -> Seq<char> {
        match self {
            BenchmarkFilter::Name(name) => name@,
        }
    }

    /// Whether the filter's text stands somewhere in `haystack`.
    pub fn apply(&self, haystack: &str) -> (r: bool)
        ensures
            r == contains_text(haystack@, self.name()),
    {
        match self {
            BenchmarkFilter::Name(name) => {
                let text = chars_of(haystack);
                let needle = chars_of(name.as_str());
                contains(&text, &needle)
            },
        }
    }

    /// The filter for the given text. Every text is a filter.
    pub fn from_str(s: &str) -> (r: Result<BenchmarkFilter, String>)
        ensures
            r matches Ok(filter) && filter.name() == s@,
    {
        Ok(BenchmarkFilter::Name(s.to_owned()))
    }
}

/// Which output of a benchmark is shown instead of captured.
#[derive(Debug, Clone, Copy, PartialEq, Eq, Structural)]
pub enum NoCapture {
    /// Both standard output and standard error are shown
    True,
    /// Both are captured
    False,
    /// Standard error is shown, standard output discarded
    Stderr,
    /// Standard output is shown, standard error discarded
    Stdout,
}

/// The ways to write "true", in lower case.
pub open spec fn is_true_literal(text: Seq<char>) -> bool {
    text == "y"@ || text == "yes"@ || text == "t"@ || text == "true"@ || text == "on"@ || text
        == "1"@
}

/// The ways to write "false", in lower case.
pub open spec fn is_false_literal(text: Seq<char>) -> bool {
    text == "n"@ || text == "no"@ || text == "f"@ || text == "false"@ || text == "off"@ || text
        == "0"@
}

/// The truth value that a text writes, letter case aside.
pub open spec fn boolish(text: Seq<char>) -> Option<bool> {
    if is_true_literal(lowered(text)) {
        Some(true)
    } else if is_false_literal(lowered(text)) {
        Some(false)
    } else {
        None
    }
}

/// Reads a truth value: `y`, `yes`, `t`, `true`, `on`, `1` or `n`, `no`, `f`,
/// `false`, `off`, `0`, in any letter case.
pub fn parse_boolish(value: &str) -> (r: Option<bool>)
    ensures
        r == boolish(value@),
{
    let chars = chars_of(value);
    let text = to_lower(&chars);
    if is_text(&text, "y") || is_text(&text, "yes") || is_text(&text, "t") || is_text(
        &text,
        "true",
    ) || is_text(&text, "on") || is_text(&text, "1") {
        Some(true)
    } else if is_text(&text, "n") || is_text(&text, "no") || is_text(&text, "f") || is_text(
        &text,
        "false",
    ) || is_text(&text, "off") || is_text(&text, "0") {
        Some(false)
    } else {
        None
    }
}

/// What a text says about capturing, or the message that rejects it.
pub open spec fn nocapture_of(text: Seq<char>) -> Result<NoCapture, Seq<char>> {
    if is_true_literal(lowered(text)) {
        Ok(NoCapture::True)
    } else if is_false_literal(lowered(text)) {
        Ok(NoCapture::False)
    } else if lowered(text) == "stdout"@ {
        Ok(NoCapture::Stdout)
    } else if lowered(text) == "stderr"@ {
        Ok(NoCapture::Stderr)
    } else {
        Err("Invalid value: "@ + text)
    }
}

/// Reads the capture option: a truth value, `stdout` or `stderr`, in any
/// letter case.
pub fn parse_nocapture(value: &str) -> (r: Result<NoCapture, String>)
    ensures
        match r {
            Ok(capture) => nocapture_of(value@) == Ok::<NoCapture, Seq<char>>(capture),
            Err(message) => nocapture_of(value@) == Err::<NoCapture, Seq<char>>(message@),
        },
{
    let chars = chars_of(value);
    let text = to_lower(&chars);
    match parse_boolish(value) {
        Some(true) => Ok(NoCapture::True),
        Some(false) => Ok(NoCapture::False),
        None => {
            if is_text(&text, "stdout") {
                Ok(NoCapture::Stdout)
            } else if is_text(&text, "stderr") {
                Ok(NoCapture::Stderr)
            } else {
                Err(String::from_str("Invalid value: ").concat(value))
            }
        },
    }
}

/// The words into which `shlex::split` splits a command line, or none where
/// it rejects the line.
pub uninterp spec fn shlex_split(input: Seq<char>) -> Option<Seq<Seq<char>>>;

/// Calls `shlex::split`, which splits a line into words by the quoting rules
/// of the shell and gives nothing for a line with unfinished quoting.
#[verifier::external_body]
fn split_shell_words(value: &str) -> (r: Option<Vec<String>>)
    ensures
        match r {
            Some(words) => shlex_split(value@) == Some(string_views(words@)),
            None => shlex_split(value@).is_none(),
        },
{
    shlex::split(value)
}

/// The raw arguments made of the words of a command line; a line that could
/// not be split is rejected.
pub fn raw_args_from_words(words: Option<Vec<String>>) -> (r: Result<RawArgs, String>)
    ensures
        match words {
            Some(w) => r matches Ok(args) && args.0 == w,
            None => r matches Err(message) && message@ == "Failed to split callgrind args"@,
        },
{
    match words {
        Some(w) => Ok(RawArgs::new(w)),
        None => Err(String::from_str("Failed to split callgrind args")),
    }
}

/// Splits a line of arguments for the profiler into raw arguments, by the
/// quoting rules of the shell.
pub fn parse_args(value: &str) -> (r: Result<RawArgs, String>)
    ensures
        match r {
            Ok(args) => shlex_split(value@) == Some(string_views(args.0@)),
            Err(message) => shlex_split(value@).is_none() && message@
                == "Failed to split callgrind args"@,
        },
{
    raw_args_from_words(split_shell_words(value))
}

/// The format of the summary file.
#[derive(Debug, Clone, Copy, PartialEq, Eq, Structural)]
pub enum SummaryFormat {
    Json,
    PrettyJson,
}

/// The format of the terminal output.
#[derive(Debug, Clone, Copy, PartialEq, Eq, Structural)]
pub enum OutputFormatKind {
    Default,
    Json,
    PrettyJson,
}

/// The summary format that a text names.
pub open spec fn summary_format_of(text: Seq<char>) -> Option<SummaryFormat> {
    if text == "json"@ {
        Some(SummaryFormat::Json)
    } else if text == "pretty-json"@ {
        Some(SummaryFormat::PrettyJson)
    } else {
        None
    }
}

/// The output format that a text names.
pub open spec fn output_format_of(text: Seq<char>) -> Option<OutputFormatKind> {
    if text == "default"@ {
        Some(OutputFormatKind::Default)
    } else if text == "json"@ {
        Some(OutputFormatKind::Json)
    } else if text == "pretty-json"@ {
        Some(OutputFormatKind::PrettyJson)
    } else {
        None
    }
}

/// Reads the name of a summary format.
pub fn parse_summary_format(value: &str) -> (r: Option<SummaryFormat>)
    ensures
        r == summary_format_of(value@),
{
    let text = chars_of(value);
    if is_text(&text, "json") {
        Some(SummaryFormat::Json)
    } else if is_text(&text, "pretty-json") {
        Some(SummaryFormat::PrettyJson)
    } else {
        None
    }
}

/// Reads the name of an output format.
pub fn parse_output_format(value: &str) -> (r: Option<OutputFormatKind>)
    ensures
        r == output_format_of(value@),
{
    let text = chars_of(value);
    if is_text(&text, "default") {
        Some(OutputFormatKind::Default)
    } else if is_text(&text, "json") {
        Some(OutputFormatKind::Json)
    } else if is_text(&text, "pretty-json") {
        Some(OutputFormatKind::PrettyJson)
    } else {
        None
    }
}

/// The name of a baseline: ASCII letters, digits and `_`.
#[derive(Debug, PartialEq, Eq)]
pub struct BaselineName(String);

/// Whether a character may stand in a baseline name.
pub open spec fn is_name_char(c: char) -> bool {
    ('a' <= c && c <= 'z') || ('A' <= c && c <= 'Z') || ('0' <= c && c <= '9') || c == '_'
}

/// Whether a text is made of name characters only.
pub open spec fn is_baseline_name(text: Seq<char>) -> bool {
    forall|i: int| 0 <= i < text.len() ==> is_name_char(#[trigger] text[i])
}

impl View for BaselineName {
    type V = Seq<char>;

    closed spec fn view(&self) -> Seq<char> {
        self.0@
    }
}

impl Clone for BaselineName {
    fn clone(&self) -> (r: Self)
        ensures
            r@ == self@,
    {
        proof {
            use_type_invariant(self);
        }
        BaselineName(self.0.clone())
    }
}

impl BaselineName {
    #[verifier::type_invariant]
    spec fn valid(&self) -> bool {
        is_baseline_name(self.0@)
    }

    /// The baseline name `s`, if it is made of ASCII letters, digits and `_` only.
    pub fn from_str(s: &str) -> (r: Result<BaselineName, String>)
        ensures
            match r {
                Ok(name) => is_baseline_name(s@) && name@ == s@,
                Err(message) => !is_baseline_name(s@) && message@ == baseline_name_error(s@),
            },
    {
        let text = chars_of(s);
        let mut i: usize = 0;
        while i < text.len()
            invariant
                i <= text.len(),
                text@ == s@,
                forall|j: int| 0 <= j < i ==> is_name_char(#[trigger] text@[j]),
            decreases text.len() - i,
        {
            let c = text[i];
            if !(('a' <= c && c <= 'z') || ('A' <= c && c <= 'Z') || ('0' <= c && c <= '9') || c
                == '_') {
                return Err(
                    quoted(
                        "A baseline name can only consist of ascii characters which are alphanumeric or '_' but found: '",
                        &text,
                        "'",
                    ),
                );
            }
            i += 1;
        }
        Ok(BaselineName(s.to_owned()))
    }

    /// The name of the baseline that is meant where none is given.
    pub fn default_name() -> (r: BaselineName)
        ensures
            r@ == "default"@,
    {
        proof {
            reveal_strlit("default");
        }
        BaselineName(String::from_str("default"))
    }

    /// Whether both are the same name.
    pub fn same(&self, other: &BaselineName) -> (r: bool)
        ensures
            r == (self@ == other@),
    {
        same_string(&self.0, &other.0)
    }

    /// The name as text.
    pub fn as_str(&self) -> (r: &str)
        ensures
            r@ == self@,
            is_baseline_name(r@),
    {
        proof {
            use_type_invariant(self);
        }
        self.0.as_str()
    }
}

/// The message that rejects a text as a baseline name.
pub open spec fn baseline_name_error(text: Seq<char>) -> Seq<char> {
    "A baseline name can only consist of ascii characters which are alphanumeric or '_' but found: '"@
        + text + "'"@
}

/// The values of the options as they stand on the command line, before they
/// are read. An option that takes its value optionally and stands without one
/// holds the value that is documented for that case.
#[derive(Debug, Default, PartialEq, Eq)]
pub struct RawCommandLine {
    pub filter: Option<String>,
    pub callgrind_args: Option<String>,
    pub save_summary: Option<String>,
    pub allow_aslr: Option<String>,
    pub regression: Option<String>,
    pub regression_fail_fast: Option<String>,
    pub save_baseline: Option<String>,
    pub baseline: Option<String>,
    pub load_baseline: Option<String>,
    pub output_format: Option<String>,
    pub separate_targets: Option<String>,
    pub home: Option<String>,
    pub nocapture: Option<String>,
}

/// The text of the first of two optional strings that is there.
pub open spec fn first_text(first: Option<String>, second: Option<String>) -> Option<Seq<char>> {
    if first.is_some() {
        text_of(first)
    } else {
        text_of(second)
    }
}

fn first_of(first: Option<String>, second: Option<String>) -> (r: Option<String>)
    ensures
        text_of(r) == first_text(first, second),
{
    match first {
        Some(text) => Some(text),
        None => second,
    }
}

impl RawCommandLine {
    /// The values of `self`, and for every option that `self` leaves out the
    /// value of `fallback`: what the command line leaves out is taken from
    /// the environment.
    pub fn or(self, fallback: RawCommandLine) -> (r: RawCommandLine)
        ensures
            text_of(r.filter) == first_text(self.filter, fallback.filter),
            text_of(r.callgrind_args) == first_text(self.callgrind_args, fallback.callgrind_args),
            text_of(r.save_summary) == first_text(self.save_summary, fallback.save_summary),
            text_of(r.allow_aslr) == first_text(self.allow_aslr, fallback.allow_aslr),
            text_of(r.regression) == first_text(self.regression, fallback.regression),
            text_of(r.regression_fail_fast) == first_text(
                self.regression_fail_fast,
                fallback.regression_fail_fast,
            ),
            text_of(r.save_baseline) == first_text(self.save_baseline, fallback.save_baseline),
            text_of(r.baseline) == first_text(self.baseline, fallback.baseline),
            text_of(r.load_baseline) == first_text(self.load_baseline, fallback.load_baseline),
            text_of(r.output_format) == first_text(self.output_format, fallback.output_format),
            text_of(r.separate_targets) == first_text(
                self.separate_targets,
                fallback.separate_targets,
            ),
            text_of(r.home) == first_text(self.home, fallback.home),
            text_of(r.nocapture) == first_text(self.nocapture, fallback.nocapture),
    {
        RawCommandLine {
            filter: first_of(self.filter, fallback.filter),
            callgrind_args: first_of(self.callgrind_args, fallback.callgrind_args),
            save_summary: first_of(self.save_summary, fallback.save_summary),
            allow_aslr: first_of(self.allow_aslr, fallback.allow_aslr),
            regression: first_of(self.regression, fallback.regression),
            regression_fail_fast: first_of(
                self.regression_fail_fast,
                fallback.regression_fail_fast,
            ),
            save_baseline: first_of(self.save_baseline, fallback.save_baseline),
            baseline: first_of(self.baseline, fallback.baseline),
            load_baseline: first_of(self.load_baseline, fallback.load_baseline),
            output_format: first_of(self.output_format, fallback.output_format),
            separate_targets: first_of(self.separate_targets, fallback.separate_targets),
            home: first_of(self.home, fallback.home),
            nocapture: first_of(self.nocapture, fallback.nocapture),
        }
    }
}

/// The options of a benchmark run.
#[derive(Debug)]
pub struct CommandLineArgs {
    /// Only benchmarks whose name holds this text are run.
    pub filter: Option<BenchmarkFilter>,
    /// The arguments handed through to the profiler.
    pub callgrind_args: Option<RawArgs>,
    /// Whether, and how, a summary of each benchmark is saved.
    pub save_summary: Option<SummaryFormat>,
    /// Whether address space layout randomization stays on.
    pub allow_aslr: Option<bool>,
    /// The regression limits.
    pub regression: Option<RegressionConfig>,
    /// Whether the first regression ends the run.
    pub regression_fail_fast: Option<bool>,
    /// The baseline to compare against and then overwrite.
    pub save_baseline: Option<BaselineName>,
    /// The baseline to compare against without overwriting it.
    pub baseline: Option<BaselineName>,
    /// The baseline to load as the new data set.
    pub load_baseline: Option<BaselineName>,
    /// The format of the terminal output.
    pub output_format: OutputFormatKind,
    /// Whether output files are kept apart by target.
    pub separate_targets: bool,
    /// The directory of the output files.
    pub home: Option<String>,
    /// Which output of a benchmark is shown instead of captured.
    pub nocapture: NoCapture,
}

/// The text of an optional string.
pub open spec fn text_of(value: Option<String>) -> Option<Seq<char>> {
    match value {
        Some(text) => Some(text@),
        None => None,
    }
}

/// The text of an optional baseline name.
pub open spec fn name_of(value: Option<BaselineName>) -> Option<Seq<char>> {
    match value {
        Some(name) => Some(name@),
        None => None,
    }
}

/// The message for a value that an option does not take.
pub open spec fn invalid_value(option: Seq<char>, value: Seq<char>) -> Seq<char> {
    "invalid value '"@ + value + "' for '"@ + option + "'"@
}

/// Why an optional truth value is rejected, if it is.
pub open spec fn boolish_rejection(option: Seq<char>, value: Option<Seq<char>>) -> Option<
    Seq<char>,
> {
    match value {
        Some(text) => if boolish(text).is_none() {
            Some(invalid_value(option, text))
        } else {
            None
        },
        None => None,
    }
}

/// Why an optional baseline name is rejected, if it is.
pub open spec fn name_rejection(value: Option<Seq<char>>) -> Option<Seq<char>> {
    match value {
        Some(text) => if is_baseline_name(text) {
            None
        } else {
            Some(baseline_name_error(text))
        },
        None => None,
    }
}

/// The first reason for which the options are rejected, or none where they
/// are accepted. The options are examined in a fixed order: each value must
/// be readable; `--regression-fail-fast` needs `--regression`;
/// `--save-baseline` excludes `--baseline` and `--load-baseline`;
/// `--load-baseline` needs `--baseline`; `--home` needs a value.
pub open spec fn rejection(raw: RawCommandLine) -> Option<Seq<char>> {
    if raw.callgrind_args.is_some() && shlex_split(raw.callgrind_args.unwrap()@).is_none() {
        Some("Failed to split callgrind args"@)
    } else if raw.save_summary.is_some() && summary_format_of(raw.save_summary.unwrap()@).is_none() {
        Some(invalid_value("--save-summary"@, raw.save_summary.unwrap()@))
    } else if boolish_rejection("--allow-aslr"@, text_of(raw.allow_aslr)).is_some() {
        boolish_rejection("--allow-aslr"@, text_of(raw.allow_aslr))
    } else if raw.regression.is_some() && regression_limits(raw.regression.unwrap()@).is_err() {
        Some(regression_limits(raw.regression.unwrap()@)->Err_0)
    } else if boolish_rejection("--regression-fail-fast"@, text_of(raw.regression_fail_fast))
        .is_some() {
        boolish_rejection("--regression-fail-fast"@, text_of(raw.regression_fail_fast))
    } else if raw.regression_fail_fast.is_some() && raw.regression.is_none() {
        Some("the argument '--regression-fail-fast' requires '--regression'"@)
    } else if name_rejection(text_of(raw.save_baseline)).is_some() {
        name_rejection(text_of(raw.save_baseline))
    } else if name_rejection(text_of(raw.baseline)).is_some() {
        name_rejection(text_of(raw.baseline))
    } else if name_rejection(text_of(raw.load_baseline)).is_some() {
        name_rejection(text_of(raw.load_baseline))
    } else if raw.save_baseline.is_some() && (raw.baseline.is_some()
        || raw.load_baseline.is_some()) {
        Some("the argument '--save-baseline' cannot be used with '--baseline' or '--load-baseline'"@)
    } else if raw.load_baseline.is_some() && raw.baseline.is_none() {
        Some("the argument '--load-baseline' requires '--baseline'"@)
    } else if raw.output_format.is_some() && output_format_of(raw.output_format.unwrap()@).is_none() {
        Some(invalid_value("--output-format"@, raw.output_format.unwrap()@))
    } else if boolish_rejection("--separate-targets"@, text_of(raw.separate_targets)).is_some() {
        boolish_rejection("--separate-targets"@, text_of(raw.separate_targets))
    } else if raw.home.is_some() && raw.home.unwrap()@.len() == 0 {
        Some("a value is required for '--home' but none was supplied"@)
    } else if raw.nocapture.is_some() && nocapture_of(raw.nocapture.unwrap()@).is_err() {
        Some(nocapture_of(raw.nocapture.unwrap()@)->Err_0)
    } else {
        None
    }
}

/// The truth value of an option that may be absent.
pub open spec fn optional_bool(value: Option<String>) -> Option<bool> {
    match value {
        Some(text) => boolish(text@),
        None => None,
    }
}

/// Whether `args` are the options that the accepted values `raw` stand for.
/// An output format that is not given is the default one; target separation
/// and showing output are off unless they are given.
pub open spec fn assembled(raw: RawCommandLine, args: CommandLineArgs) -> bool {
    &&& match (raw.filter, args.filter) {
        (Some(text), Some(filter)) => filter.name() == text@,
        (None, None) => true,
        _ => false,
    }
    &&& match (raw.callgrind_args, args.callgrind_args) {
        (Some(text), Some(list)) => shlex_split(text@) == Some(string_views(list.0@)),
        (None, None) => true,
        _ => false,
    }
    &&& match raw.save_summary {
        Some(text) => args.save_summary == summary_format_of(text@),
        None => args.save_summary.is_none(),
    }
    &&& args.allow_aslr == optional_bool(raw.allow_aslr)
    &&& match (raw.regression, args.regression) {
        (Some(text), Some(config)) => regression_limits(text@) == Ok::<
            Seq<(EventKind, Percent)>,
            Seq<char>,
        >(config.limits@) && config.fail_fast.is_none() && config.wf(),
        (None, None) => true,
        _ => false,
    }
    &&& args.regression_fail_fast == optional_bool(raw.regression_fail_fast)
    &&& name_of(args.save_baseline) == text_of(raw.save_baseline)
    &&& name_of(args.baseline) == text_of(raw.baseline)
    &&& name_of(args.load_baseline) == text_of(raw.load_baseline)
    &&& match raw.output_format {
        Some(text) => Some(args.output_format) == output_format_of(text@),
        None => args.output_format == OutputFormatKind::Default,
    }
    &&& match raw.separate_targets {
        Some(text) => Some(args.separate_targets) == boolish(text@),
        None => !args.separate_targets,
    }
    &&& text_of(args.home) == text_of(raw.home)
    &&& match raw.nocapture {
        Some(text) => Ok::<NoCapture, Seq<char>>(args.nocapture) == nocapture_of(text@),
        None => args.nocapture == NoCapture::False,
    }
}

/// What holds of the options of every accepted command line.
pub open spec fn consistent(args: CommandLineArgs) -> bool {
    &&& args.regression_fail_fast.is_some() ==> args.regression.is_some()
    &&& args.save_baseline.is_some() ==> args.baseline.is_none() && args.load_baseline.is_none()
    &&& args.load_baseline.is_some() ==> args.baseline.is_some()
    &&& args.home.is_some() ==> args.home.unwrap()@.len() > 0
}

fn invalid(option: &str, value: &str) -> (r: String)
    ensures
        r@ == invalid_value(option@, value@),
{
    String::from_str("invalid value '").concat(value).concat("' for '").concat(option).concat("'")
}

fn read_bool(option: &str, value: &Option<String>) -> (r: Result<Option<bool>, String>)
    ensures
        match r {
            Ok(flag) => boolish_rejection(option@, text_of(*value)).is_none() && flag
                == optional_bool(*value),
            Err(message) => boolish_rejection(option@, text_of(*value)) == Some(message@),
        },
{
    match value {
        Some(text) => match parse_boolish(text.as_str()) {
            Some(flag) => Ok(Some(flag)),
            None => Err(invalid(option, text.as_str())),
        },
        None => Ok(None),
    }
}

fn read_name(value: &Option<String>) -> (r: Result<Option<BaselineName>, String>)
    ensures
        match r {
            Ok(name) => name_rejection(text_of(*value)).is_none() && name_of(name) == text_of(
                *value,
            ),
            Err(message) => name_rejection(text_of(*value)) == Some(message@),
        },
{
    match value {
        Some(text) => match BaselineName::from_str(text.as_str()) {
            Ok(name) => Ok(Some(name)),
            Err(message) => Err(message),
        },
        None => Ok(None),
    }
}

impl CommandLineArgs {
    /// The regression limits with the fail-fast option of the command line;
    /// none where no limits were given.
    pub fn regression_config(&self) -> (r: Option<RegressionConfig>)
        ensures
            match (self.regression, r) {
                (Some(given), Some(config)) => config.limits@ == given.limits@
                    && config.fail_fast == self.regression_fail_fast,
                (None, None) => true,
                _ => false,
            },
    {
        match &self.regression {
            Some(given) => {
                let mut config = given.clone();
                config.fail_fast = self.regression_fail_fast;
                Some(config)
            },
            None => None,
        }
    }

    /// Reads the values of the options and checks that the options agree.
    ///
    /// The result is an error with the message of `rejection` where that
    /// names one, and else the options that `assembled` describes.
    pub fn from_raw(raw: &RawCommandLine) -> (r: Result<CommandLineArgs, String>)
        ensures
            match r {
                Ok(args) => rejection(*raw).is_none() && assembled(*raw, args) && consistent(args),
                Err(message) => rejection(*raw) == Some(message@),
            },
    {
        let callgrind_args = match &raw.callgrind_args {
            Some(text) => match parse_args(text.as_str()) {
                Ok(list) => Some(list),
                Err(message) => {
                    return Err(message);
                },
            },
            None => None,
        };
        let save_summary = match &raw.save_summary {
            Some(text) => match parse_summary_format(text.as_str()) {
                Some(format) => Some(format),
                None => {
                    return Err(invalid("--save-summary", text.as_str()));
                },
            },
            None => None,
        };
        let allow_aslr = match read_bool("--allow-aslr", &raw.allow_aslr) {
            Ok(flag) => flag,
            Err(message) => {
                return Err(message);
            },
        };
        let regression = match &raw.regression {
            Some(text) => match parse_regression_config(text.as_str()) {
                Ok(config) => Some(config),
                Err(message) => {
                    return Err(message);
                },
            },
            None => None,
        };
        let regression_fail_fast = match read_bool(
            "--regression-fail-fast",
            &raw.regression_fail_fast,
        ) {
            Ok(flag) => flag,
            Err(message) => {
                return Err(message);
            },
        };
        if raw.regression_fail_fast.is_some() && raw.regression.is_none() {
            return Err(
                String::from_str("the argument '--regression-fail-fast' requires '--regression'"),
            );
        }
        let save_baseline = match read_name(&raw.save_baseline) {
            Ok(name) => name,
            Err(message) => {
                return Err(message);
            },
        };
        let baseline = match read_name(&raw.baseline) {
            Ok(name) => name,
            Err(message) => {
                return Err(message);
            },
        };
        let load_baseline = match read_name(&raw.load_baseline) {
            Ok(name) => name,
            Err(message) => {
                return Err(message);
            },
        };
        if raw.save_baseline.is_some() && (raw.baseline.is_some() || raw.load_baseline.is_some()) {
            return Err(
                String::from_str(
                    "the argument '--save-baseline' cannot be used with '--baseline' or '--load-baseline'",
                ),
            );
        }
        if raw.load_baseline.is_some() && raw.baseline.is_none() {
            return Err(String::from_str("the argument '--load-baseline' requires '--baseline'"));
        }
        let output_format = match &raw.output_format {
            Some(text) => match parse_output_format(text.as_str()) {
                Some(format) => format,
                None => {
                    return Err(invalid("--output-format", text.as_str()));
                },
            },
            None => OutputFormatKind::Default,
        };
        let separate_targets = match read_bool("--separate-targets", &raw.separate_targets) {
            Ok(Some(flag)) => flag,
            Ok(None) => false,
            Err(message) => {
                return Err(message);
            },
        };
        let home = match &raw.home {
            Some(text) => {
                if text.as_str().unicode_len() == 0 {
                    return Err(
                        String::from_str("a value is required for '--home' but none was supplied"),
                    );
                }
                Some(text.clone())
            },
            None => None,
        };
        let nocapture = match &raw.nocapture {
            Some(text) => match parse_nocapture(text.as_str()) {
                Ok(capture) => capture,
                Err(message) => {
                    return Err(message);
                },
            },
            None => NoCapture::False,
        };
        let filter = match &raw.filter {
            Some(text) => Some(BenchmarkFilter::Name(text.clone())),
            None => None,
        };
        Ok(
            CommandLineArgs {
                filter,
                callgrind_args,
                save_summary,
                allow_aslr,
                regression,
                regression_fail_fast,
                save_baseline,
                baseline,
                load_baseline,
                output_format,
                separate_targets,
                home,
                nocapture,
            },
        )
    }
}

} // verus!
