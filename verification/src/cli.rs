//! Reading the options of a benchmark run from command-line arguments.
//!
//! The arguments are matched by `clap`; reading the matched values and checking
//! that the options agree is done by `CommandLineArgs::from_raw`.

use vstd::prelude::*;
use crate::args::{assembled, consistent, rejection, text_of, CommandLineArgs, RawCommandLine};
use crate::text::string_views;

verus! {

/// `clap::Command`, the definition of a command line. Of what a value of it
/// holds, the ids, the shapes and the defaults of its arguments are known:
/// `argument_ids`, `argument_shapes`, `argument_defaults`.
#[verifier::external_type_specification]
#[verifier::external_body]
pub struct ExCommand(clap::Command);

/// `clap::ArgMatches`, the arguments that a command matched. Of what a
/// value of it holds, only the matched texts are known: `matched_values`.
#[verifier::external_type_specification]
#[verifier::external_body]
pub struct ExArgMatches(clap::ArgMatches);

/// The ids of the arguments that a command defines, as `Arg::get_id` gives
/// them for the arguments of `Command::get_arguments`: in the order in which
/// `Command::arg` added them.
pub uninterp spec fn argument_ids(command: clap::Command) -> Seq<Seq<char>>;

/// The shapes of the arguments that a command defines, in the same order.
/// The shape of an argument says how it was made: `positional`, `flag`,
/// `one_value` or `optional_value`; every other setting of the argument is
/// the one that `Arg::new` gives.
pub uninterp spec fn argument_shapes(command: clap::Command) -> Seq<int>;

/// For each argument that a command defines, in the same order, the text
/// that `Arg::default_missing_value` set for it; the empty text where none
/// was set.
pub uninterp spec fn argument_defaults(command: clap::Command) -> Seq<Seq<char>>;

/// The texts that were matched: for every argument id for which
/// `ArgMatches::try_get_one::<String>` finds a value, the first such value.
pub uninterp spec fn matched_values(matches: clap::ArgMatches) -> Map<Seq<char>, Seq<char>>;

/// What `Command::try_get_matches_from` makes of command-line arguments, for
/// a command without a program name whose arguments have the given ids,
/// shapes and defaults: the texts that it matched, or nothing where it
/// rejects the arguments.
pub uninterp spec fn clap_matched(
    ids: Seq<Seq<char>>,
    shapes: Seq<int>,
    defaults: Seq<Seq<char>>,
    args: Seq<Seq<char>>,
) -> Option<Map<Seq<char>, Seq<char>>>;

/// The shape of an argument without a long name that takes at most one value.
pub open spec fn positional() -> int {
    0
}

/// The shape of an argument with a long name that takes no value and is
/// true where it stands.
pub open spec fn flag() -> int {
    1
}

/// The shape of an argument with a long name that takes exactly one value.
pub open spec fn one_value() -> int {
    2
}

/// The shape of an argument with a long name that takes at most one value,
/// which must follow `=`.
pub open spec fn optional_value() -> int {
    3
}

/// `clap::Command::new` with `no_binary_name`: a command whose first
/// argument is an argument, not the program's name. A new command defines no
/// argument.
#[verifier::external_body]
fn new_command(name: &'static str) -> (r: clap::Command)
    ensures
        argument_ids(r) == Seq::<Seq<char>>::empty(),
        argument_shapes(r) == Seq::<int>::empty(),
        argument_defaults(r) == Seq::<Seq<char>>::empty(),
{
    clap::Command::new(name).no_binary_name(true)
}

/// `Command::arg` with a positional argument that may be absent. The
/// argument is added after those that the command defines already, none of
/// which may have its id.
#[verifier::external_body]
fn with_positional(command: clap::Command, id: &'static str) -> (r: clap::Command)
    requires
        !argument_ids(command).contains(id@),
    ensures
        argument_ids(r) == argument_ids(command).push(id@),
        argument_shapes(r) == argument_shapes(command).push(positional()),
        argument_defaults(r) == argument_defaults(command).push(Seq::empty()),
{
    command.arg(clap::Arg::new(id).num_args(0..=1))
}

/// `Command::arg` with a flag that takes no value. The argument is added
/// after those that the command defines already, none of which may have its
/// id; its id is its long name.
#[verifier::external_body]
fn with_flag(command: clap::Command, long: &'static str) -> (r: clap::Command)
    requires
        !argument_ids(command).contains(long@),
    ensures
        argument_ids(r) == argument_ids(command).push(long@),
        argument_shapes(r) == argument_shapes(command).push(flag()),
        argument_defaults(r) == argument_defaults(command).push(Seq::empty()),
{
    command.arg(clap::Arg::new(long).long(long).action(clap::ArgAction::SetTrue))
}

/// `Command::arg` with an option that takes exactly one value. The argument
/// is added after those that the command defines already, none of which may
/// have its id; its id is its long name.
#[verifier::external_body]
fn with_value(command: clap::Command, long: &'static str) -> (r: clap::Command)
    requires
        !argument_ids(command).contains(long@),
    ensures
        argument_ids(r) == argument_ids(command).push(long@),
        argument_shapes(r) == argument_shapes(command).push(one_value()),
        argument_defaults(r) == argument_defaults(command).push(Seq::empty()),
{
    command.arg(clap::Arg::new(long).long(long).num_args(1))
}

/// `Command::arg` with an option whose value is given after `=` or left
/// out, in which case it holds `missing`. The argument is added after those
/// that the command defines already, none of which may have its id; its id
/// is its long name.
#[verifier::external_body]
fn with_optional_value(command: clap::Command, long: &'static str, missing: &'static str) -> (r:
    clap::Command)
    requires
        !argument_ids(command).contains(long@),
    ensures
        argument_ids(r) == argument_ids(command).push(long@),
        argument_shapes(r) == argument_shapes(command).push(optional_value()),
        argument_defaults(r) == argument_defaults(command).push(missing@),
{
    command.arg(
        clap::Arg::new(long).long(long).num_args(0..=1).require_equals(true).default_missing_value(
            missing,
        ),
    )
}

/// `Command::try_get_matches_from`: the matched arguments, or the text of
/// clap's error. clap panics on a command whose definition contradicts
/// itself, so only the command line of a benchmark run is admitted: the
/// arguments of `option_ids`, each of the shape that `option_shapes` gives.
/// What is matched depends on the command and the arguments alone; the text
/// of the error is clap's own.
#[verifier::external_body]
fn matches_of(command: clap::Command, args: Vec<String>) -> (r: Result<clap::ArgMatches, String>)
    requires
        argument_ids(command) == option_ids(),
        argument_shapes(command) == option_shapes(),
    ensures
        match r {
            Ok(matches) => clap_matched(
                argument_ids(command),
                argument_shapes(command),
                argument_defaults(command),
                string_views(args@),
            ) == Some(matched_values(matches)),
            Err(_) => clap_matched(
                argument_ids(command),
                argument_shapes(command),
                argument_defaults(command),
                string_views(args@),
            ).is_none(),
        },
{
    command.try_get_matches_from(args).map_err(|error| error.to_string())
}

/// `ArgMatches::try_get_one`: the text matched for the argument `id`, if
/// there is one.
#[verifier::external_body]
fn value_of(matches: &clap::ArgMatches, id: &str) -> (r: Option<String>)
    ensures
        text_of(r) == value_at(matched_values(*matches), id@),
{
    matches.try_get_one::<String>(id).ok().flatten().cloned()
}

/// The command line of a benchmark run: the arguments of `option_ids`, in
/// that order, each of the shape that `option_shapes` gives and with the
/// value of `option_defaults` for an option given without a value.
fn command() -> (r: clap::Command)
    ensures
        argument_ids(r) == option_ids(),
        argument_shapes(r) == option_shapes(),
        argument_defaults(r) == option_defaults(),
{
    let c = new_command("cargo bench");
    assert(argument_ids(c) =~= option_ids().take(0));
    assert(argument_shapes(c) =~= option_shapes().take(0));
    assert(argument_defaults(c) =~= option_defaults().take(0));
    proof {
        lemma_fresh(0);
    }
    let c = with_flag(c, "bench");
    assert(argument_ids(c) =~= option_ids().take(1));
    assert(argument_shapes(c) =~= option_shapes().take(1));
    assert(argument_defaults(c) =~= option_defaults().take(1));
    proof {
        lemma_fresh(1);
    }
    let c = with_positional(c, "BENCHNAME");
    assert(argument_ids(c) =~= option_ids().take(2));
    assert(argument_shapes(c) =~= option_shapes().take(2));
    assert(argument_defaults(c) =~= option_defaults().take(2));
    proof {
        lemma_fresh(2);
    }
    let c = with_value(c, "callgrind-args");
    assert(argument_ids(c) =~= option_ids().take(3));
    assert(argument_shapes(c) =~= option_shapes().take(3));
    assert(argument_defaults(c) =~= option_defaults().take(3));
    proof {
        lemma_fresh(3);
    }
    let c = with_optional_value(c, "save-summary", "json");
    assert(argument_ids(c) =~= option_ids().take(4));
    assert(argument_shapes(c) =~= option_shapes().take(4));
    assert(argument_defaults(c) =~= option_defaults().take(4));
    proof {
        lemma_fresh(4);
    }
    let c = with_optional_value(c, "allow-aslr", "true");
    assert(argument_ids(c) =~= option_ids().take(5));
    assert(argument_shapes(c) =~= option_shapes().take(5));
    assert(argument_defaults(c) =~= option_defaults().take(5));
    proof {
        lemma_fresh(5);
    }
    let c = with_value(c, "regression");
    assert(argument_ids(c) =~= option_ids().take(6));
    assert(argument_shapes(c) =~= option_shapes().take(6));
    assert(argument_defaults(c) =~= option_defaults().take(6));
    proof {
        lemma_fresh(6);
    }
    let c = with_optional_value(c, "regression-fail-fast", "true");
    assert(argument_ids(c) =~= option_ids().take(7));
    assert(argument_shapes(c) =~= option_shapes().take(7));
    assert(argument_defaults(c) =~= option_defaults().take(7));
    proof {
        lemma_fresh(7);
    }
    let c = with_optional_value(c, "save-baseline", "default");
    assert(argument_ids(c) =~= option_ids().take(8));
    assert(argument_shapes(c) =~= option_shapes().take(8));
    assert(argument_defaults(c) =~= option_defaults().take(8));
    proof {
        lemma_fresh(8);
    }
    let c = with_optional_value(c, "baseline", "default");
    assert(argument_ids(c) =~= option_ids().take(9));
    assert(argument_shapes(c) =~= option_shapes().take(9));
    assert(argument_defaults(c) =~= option_defaults().take(9));
    proof {
        lemma_fresh(9);
    }
    let c = with_optional_value(c, "load-baseline", "default");
    assert(argument_ids(c) =~= option_ids().take(10));
    assert(argument_shapes(c) =~= option_shapes().take(10));
    assert(argument_defaults(c) =~= option_defaults().take(10));
    proof {
        lemma_fresh(10);
    }
    let c = with_value(c, "output-format");
    assert(argument_ids(c) =~= option_ids().take(11));
    assert(argument_shapes(c) =~= option_shapes().take(11));
    assert(argument_defaults(c) =~= option_defaults().take(11));
    proof {
        lemma_fresh(11);
    }
    let c = with_optional_value(c, "separate-targets", "true");
    assert(argument_ids(c) =~= option_ids().take(12));
    assert(argument_shapes(c) =~= option_shapes().take(12));
    assert(argument_defaults(c) =~= option_defaults().take(12));
    proof {
        lemma_fresh(12);
    }
    let c = with_value(c, "home");
    assert(argument_ids(c) =~= option_ids().take(13));
    assert(argument_shapes(c) =~= option_shapes().take(13));
    assert(argument_defaults(c) =~= option_defaults().take(13));
    proof {
        lemma_fresh(13);
    }
    let c = with_optional_value(c, "nocapture", "true");
    assert(argument_ids(c) =~= option_ids().take(14));
    assert(argument_shapes(c) =~= option_shapes().take(14));
    assert(argument_defaults(c) =~= option_defaults().take(14));
    assert(option_ids().take(14) =~= option_ids());
    assert(option_shapes().take(14) =~= option_shapes());
    assert(option_defaults().take(14) =~= option_defaults());
    c
}

/// The values matched for the arguments of `command`: every option holds the
/// text that was matched for its id, or nothing where none was.
fn raw_values(matches: &clap::ArgMatches) -> (r: RawCommandLine)
    ensures
        holds_matched(r, matched_values(*matches)),
{
    RawCommandLine {
        filter: value_of(matches, "BENCHNAME"),
        callgrind_args: value_of(matches, "callgrind-args"),
        save_summary: value_of(matches, "save-summary"),
        allow_aslr: value_of(matches, "allow-aslr"),
        regression: value_of(matches, "regression"),
        regression_fail_fast: value_of(matches, "regression-fail-fast"),
        save_baseline: value_of(matches, "save-baseline"),
        baseline: value_of(matches, "baseline"),
        load_baseline: value_of(matches, "load-baseline"),
        output_format: value_of(matches, "output-format"),
        separate_targets: value_of(matches, "separate-targets"),
        home: value_of(matches, "home"),
        nocapture: value_of(matches, "nocapture"),
    }
}

/// What clap makes of the arguments of a benchmark run: the texts that it
/// matched, or nothing where it rejects the arguments.
pub open spec fn matched_for(args: Seq<Seq<char>>) -> Option<Map<Seq<char>, Seq<char>>> {
    clap_matched(option_ids(), option_shapes(), option_defaults(), args)
}

impl RawCommandLine {
    /// Matches the arguments that follow `--`, without the program's name,
    /// against the command line of a benchmark run.
    ///
    /// The arguments are accepted exactly where clap accepts them, and the
    /// values are then the texts that clap matched. The text of an error is
    /// clap's own.
    pub fn try_parse_from(args: Vec<String>) -> (r: Result<RawCommandLine, String>)
        ensures
            match r {
                Ok(raw) => matched_for(string_views(args@)).is_some() && holds_matched(
                    raw,
                    matched_for(string_views(args@)).unwrap(),
                ),
                Err(_) => matched_for(string_views(args@)).is_none(),
            },
    {
        match matches_of(command(), args) {
            Ok(matches) => Ok(raw_values(&matches)),
            Err(message) => Err(message),
        }
    }
}

impl CommandLineArgs {
    /// Reads the options from the arguments that follow `--`, without the
    /// program's name.
    ///
    /// The options are accepted exactly where clap accepts the arguments and
    /// `from_raw` the texts that clap matched; they are then what
    /// `from_raw` makes of these texts. Where clap accepts and `from_raw`
    /// rejects, the error is the message of `from_raw`; where clap rejects,
    /// it is clap's own.
    pub fn try_parse_from(args: Vec<String>) -> (r: Result<CommandLineArgs, String>)
        ensures
            match r {
                Ok(options) => matched_for(string_views(args@)).is_some() && consistent(options)
                    && exists|raw: RawCommandLine|
                    holds_matched(raw, matched_for(string_views(args@)).unwrap()) && rejection(
                        raw,
                    ).is_none() && assembled(raw, options),
                Err(message) => matched_for(string_views(args@)).is_none() || exists|
                    raw: RawCommandLine,
                |
                    holds_matched(raw, matched_for(string_views(args@)).unwrap()) && rejection(raw)
                        == Some(message@),
            },
    {
        match RawCommandLine::try_parse_from(args) {
            Ok(raw) => {
                let r = CommandLineArgs::from_raw(&raw);
                proof {
                    let matched = matched_for(string_views(args@)).unwrap();
                    if r.is_ok() {
                        assert(holds_matched(raw, matched) && rejection(raw).is_none()
                            && assembled(raw, r->Ok_0));
                    } else {
                        assert(holds_matched(raw, matched) && rejection(raw) == Some(
                            r->Err_0@,
                        ));
                    }
                }
                r
            },
            Err(message) => Err(message),
        }
    }
}

/// The ids of the arguments of a benchmark run, in the order in which they
/// are defined: the flag that cargo adds, the filter, then the options.
pub open spec fn option_ids() -> Seq<Seq<char>> {
    seq![
        "bench"@,
        "BENCHNAME"@,
        "callgrind-args"@,
        "save-summary"@,
        "allow-aslr"@,
        "regression"@,
        "regression-fail-fast"@,
        "save-baseline"@,
        "baseline"@,
        "load-baseline"@,
        "output-format"@,
        "separate-targets"@,
        "home"@,
        "nocapture"@,
    ]
}

/// The shapes of the arguments of a benchmark run, in the order of
/// `option_ids`.
pub open spec fn option_shapes() -> Seq<int> {
    seq![
        flag(),
        positional(),
        one_value(),
        optional_value(),
        optional_value(),
        one_value(),
        optional_value(),
        optional_value(),
        optional_value(),
        optional_value(),
        one_value(),
        optional_value(),
        one_value(),
        optional_value(),
    ]
}

/// The values that stand for the options of a benchmark run where they are
/// given without a value, in the order of `option_ids`; the empty text for
/// an argument that has none.
pub open spec fn option_defaults() -> Seq<Seq<char>> {
    seq![
        Seq::empty(),
        Seq::empty(),
        Seq::empty(),
        "json"@,
        "true"@,
        Seq::empty(),
        "true"@,
        "default"@,
        "default"@,
        "default"@,
        Seq::empty(),
        "true"@,
        Seq::empty(),
        "true"@,
    ]
}

/// The ids of the arguments all differ.
pub proof fn lemma_option_ids_distinct()
    ensures
        option_ids().no_duplicates(),
        option_ids().len() == 14,
{
    reveal_strlit("bench");
    reveal_strlit("BENCHNAME");
    reveal_strlit("callgrind-args");
    reveal_strlit("save-summary");
    reveal_strlit("allow-aslr");
    reveal_strlit("regression");
    reveal_strlit("regression-fail-fast");
    reveal_strlit("save-baseline");
    reveal_strlit("baseline");
    reveal_strlit("load-baseline");
    reveal_strlit("output-format");
    reveal_strlit("separate-targets");
    reveal_strlit("home");
    reveal_strlit("nocapture");
    let ids = option_ids();
    assert(ids[1][0] != ids[13][0]);
    assert(ids[4][0] != ids[5][0]);
    assert(ids[7][0] != ids[9][0]);
    assert(ids[7][0] != ids[10][0]);
    assert(ids[9][0] != ids[10][0]);
    assert forall|i: int, j: int| 0 <= i < ids.len() && 0 <= j < ids.len() && i != j implies ids[i]
        != ids[j] by {
        if ids[i].len() == ids[j].len() {
            assert(ids[i][0] != ids[j][0]);
        }
    }
}

/// The argument at position `k` has an id that none before it has.
proof fn lemma_fresh(k: int)
    requires
        0 <= k < 14,
    ensures
        !option_ids().take(k).contains(option_ids()[k]),
{
    lemma_option_ids_distinct();
    let before = option_ids().take(k);
    if before.contains(option_ids()[k]) {
        let i = choose|i: int| 0 <= i < before.len() && before[i] == option_ids()[k];
        assert(before[i] == option_ids()[i]);
    }
}

/// The text that was matched for `id`, if one was.
pub open spec fn value_at(values: Map<Seq<char>, Seq<char>>, id: Seq<char>) -> Option<Seq<char>> {
    if values.dom().contains(id) {
        Some(values[id])
    } else {
        None
    }
}

/// Whether every option of `raw` holds what was matched for its id: the
/// filter for `BENCHNAME`, every other option for its long name.
pub open spec fn holds_matched(raw: RawCommandLine, values: Map<Seq<char>, Seq<char>>) -> bool {
    &&& text_of(raw.filter) == value_at(values, "BENCHNAME"@)
    &&& text_of(raw.callgrind_args) == value_at(values, "callgrind-args"@)
    &&& text_of(raw.save_summary) == value_at(values, "save-summary"@)
    &&& text_of(raw.allow_aslr) == value_at(values, "allow-aslr"@)
    &&& text_of(raw.regression) == value_at(values, "regression"@)
    &&& text_of(raw.regression_fail_fast) == value_at(values, "regression-fail-fast"@)
    &&& text_of(raw.save_baseline) == value_at(values, "save-baseline"@)
    &&& text_of(raw.baseline) == value_at(values, "baseline"@)
    &&& text_of(raw.load_baseline) == value_at(values, "load-baseline"@)
    &&& text_of(raw.output_format) == value_at(values, "output-format"@)
    &&& text_of(raw.separate_targets) == value_at(values, "separate-targets"@)
    &&& text_of(raw.home) == value_at(values, "home"@)
    &&& text_of(raw.nocapture) == value_at(values, "nocapture"@)
}

} // verus!
