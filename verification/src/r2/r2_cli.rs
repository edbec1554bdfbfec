//! The `celld r2` command line.

use vstd::prelude::*;
use crate::text;

verus! {

/// The options that name a fleet's bucket.
#[derive(Debug)]
pub struct FleetFlags {
    pub bucket: Option<String>,
    pub endpoint: Option<String>,
    pub region: Option<String>,
}

/// What the command is to do.
#[derive(Debug)]
pub enum Action {
    Branch { bucket_name: String, parent_bucket: String, fleet: FleetFlags, json: bool },
}

/// A command line that was read.
#[derive(Debug)]
pub struct Command {
    pub action: Action,
}

/// What the options have said so far.
pub struct OptionsModel {
    pub name: Option<Seq<char>>,
    pub parent_bucket: Option<Seq<char>>,
    pub bucket: Option<Seq<char>>,
    pub endpoint: Option<Seq<char>>,
    pub region: Option<Seq<char>>,
    pub json: bool,
}

/// What reading a command line comes to.
pub enum ParseModel {
    /// The help is asked for.
    Help,
    /// The line is wrong, for this reason.
    Wrong(Seq<char>),
    /// The options were read.
    Options(OptionsModel),
}

/// Nothing said yet.
pub open spec fn no_options() -> OptionsModel {
    OptionsModel {
        name: None,
        parent_bucket: None,
        bucket: None,
        endpoint: None,
        region: None,
        json: false,
    }
}

/// Does an option take a value?
pub open spec fn takes_value(option: Seq<char>) -> bool {
    option == "--name"@ || option == "--parent-bucket"@ || option == "--bucket"@ || option
        == "--endpoint"@ || option == "--region"@
}

/// What the options say after `option` with its value.
pub open spec fn with_value(options: OptionsModel, option: Seq<char>, value: Seq<char>) -> OptionsModel {
    if option == "--name"@ {
        OptionsModel { name: Some(value), ..options }
    } else if option == "--parent-bucket"@ {
        OptionsModel { parent_bucket: Some(value), ..options }
    } else if option == "--bucket"@ {
        OptionsModel { bucket: Some(value), ..options }
    } else if option == "--endpoint"@ {
        OptionsModel { endpoint: Some(value), ..options }
    } else {
        OptionsModel { region: Some(value), ..options }
    }
}

/// The reason to refuse an argument that is no option, from its quoted form
/// where it does not even look like one.
pub open spec fn unexpected(argument: Seq<char>, quoted: Seq<char>) -> Seq<char> {
    if text::has_prefix(argument, "-"@) {
        "unknown option: "@ + argument + "; run `celld r2 --help` for usage"@
    } else {
        "`celld r2 branch` takes no positional argument: "@ + quoted
    }
}

/// What the arguments say, after `options`.
pub open spec fn read_options(options: OptionsModel, arguments: Seq<Seq<char>>) -> ParseModel
    decreases arguments.len(),
{
    if arguments.len() == 0 {
        ParseModel::Options(options)
    } else {
        let option = arguments[0];
        if takes_value(option) {
            if arguments.len() == 1 {
                ParseModel::Wrong(option + " requires a value"@)
            } else {
                read_options(with_value(options, option, arguments[1]), arguments.skip(2))
            }
        } else if option == "--json"@ {
            read_options(OptionsModel { json: true, ..options }, arguments.skip(1))
        } else if option == "--help"@ || option == "-h"@ {
            ParseModel::Help
        } else {
            ParseModel::Wrong(unexpected(option, text::debug_quoted(option)))
        }
    }
}

/// What a command line says.
pub open spec fn read_command(arguments: Seq<Seq<char>>) -> ParseModel {
    if arguments.len() == 0 {
        ParseModel::Help
    } else {
        let verb = arguments[0];
        if verb == "--help"@ || verb == "-h"@ || verb == "help"@ {
            ParseModel::Help
        } else if verb != "branch"@ {
            ParseModel::Wrong("unknown `celld r2` subcommand: "@ + verb)
        } else {
            match read_options(no_options(), arguments.skip(1)) {
                ParseModel::Options(options) => if options.name is None {
                    ParseModel::Wrong("celld r2 branch requires --name"@)
                } else if options.parent_bucket is None {
                    ParseModel::Wrong("celld r2 branch requires --parent-bucket"@)
                } else {
                    ParseModel::Options(options)
                },
                other => other,
            }
        }
    }
}

/// The view of a text that may not be there.
pub open spec fn maybe(text: Option<String>) -> Option<Seq<char>> {
    match text {
        Some(text) => Some(text@),
        None => None,
    }
}

/// Does a command do what the options say?
pub open spec fn command_says(command: Command, options: OptionsModel) -> bool {
    match command.action {
        Action::Branch { bucket_name, parent_bucket, fleet, json } => {
            &&& options.name == Some(bucket_name@)
            &&& options.parent_bucket == Some(parent_bucket@)
            &&& options.bucket == maybe(fleet.bucket)
            &&& options.endpoint == maybe(fleet.endpoint)
            &&& options.region == maybe(fleet.region)
            &&& options.json == json
        },
    }
}

/// What the options have said so far.
struct Options {
    name: Option<String>,
    parent_bucket: Option<String>,
    bucket: Option<String>,
    endpoint: Option<String>,
    region: Option<String>,
    json: bool,
}

impl Options {
    spec fn model(self) -> OptionsModel {
        OptionsModel {
            name: maybe(self.name),
            parent_bucket: maybe(self.parent_bucket),
            bucket: maybe(self.bucket),
            endpoint: maybe(self.endpoint),
            region: maybe(self.region),
            json: self.json,
        }
    }

    fn take(&mut self, option: &str, value: String)
        requires
            takes_value(option@),
        ensures
            final(self).model() == with_value(old(self).model(), option@, value@),
    {
        if text::same(option, "--name") {
            self.name = Some(value);
        } else if text::same(option, "--parent-bucket") {
            self.parent_bucket = Some(value);
        } else if text::same(option, "--bucket") {
            self.bucket = Some(value);
        } else if text::same(option, "--endpoint") {
            self.endpoint = Some(value);
        } else {
            self.region = Some(value);
        }
    }
}

fn is_valued(option: &str) -> (valued: bool)
    ensures
        valued == takes_value(option@),
{
    text::same(option, "--name") || text::same(option, "--parent-bucket") || text::same(
        option,
        "--bucket",
    ) || text::same(option, "--endpoint") || text::same(option, "--region")
}

/// The reason to refuse an argument that is no option, from its quoted form.
pub fn unexpected_text(argument: &str, quoted: &str) -> (message: String)
    ensures
        message@ == unexpected(argument@, quoted@),
{
    if text::starts_with(argument, "-") {
        let mut message = "unknown option: ".to_owned();
        message.append(argument);
        message.append("; run `celld r2 --help` for usage");
        message
    } else {
        let mut message = "`celld r2 branch` takes no positional argument: ".to_owned();
        message.append(quoted);
        message
    }
}

impl Command {
    /// Read a command line; nothing where the help is asked for.
    pub fn parse(arguments: Vec<String>) -> (command: Result<Option<Command>, String>)
        ensures
            match read_command(text::views(arguments@)) {
                ParseModel::Help => command matches Ok(None),
                ParseModel::Wrong(reason) => command matches Err(message) && message@ == reason,
                ParseModel::Options(options) => command matches Ok(Some(command)) && command_says(
                    command,
                    options,
                ),
            },
    {
        let ghost all = text::views(arguments@);
        if arguments.len() == 0 {
            return Ok(None);
        }
        let verb = arguments[0].as_str();
        if text::same(verb, "--help") || text::same(verb, "-h") || text::same(verb, "help") {
            return Ok(None);
        }
        if !text::same(verb, "branch") {
            let mut message = "unknown `celld r2` subcommand: ".to_owned();
            message.append(verb);
            return Err(message);
        }
        let mut options = Options {
            name: None,
            parent_bucket: None,
            bucket: None,
            endpoint: None,
            region: None,
            json: false,
        };
        let total: usize = arguments.len();
        let mut at: usize = 1;
        while at < total
            invariant
                1 <= at <= total,
                total == arguments@.len(),
                all == text::views(arguments@),
                all.len() > 0,
                all[0] == "branch"@,
                !(all[0] == "--help"@ || all[0] == "-h"@ || all[0] == "help"@),
                read_options(no_options(), all.skip(1)) == read_options(
                    options.model(),
                    all.skip(at as int),
                ),
            decreases total - at,
        {
            let option = arguments[at].as_str();
            assert(option@ == all[at as int]);
            assert(all.skip(at as int)[0] == option@);
            if is_valued(option) {
                if at + 1 >= total {
                    let mut message = option.to_owned();
                    message.append(" requires a value");
                    return Err(message);
                }
                let value = arguments[at + 1].as_str().to_owned();
                assert(all.skip(at as int)[1] == value@);
                assert(all.skip(at as int).skip(2) =~= all.skip(at + 2));
                options.take(option, value);
                at = at + 2;
            } else if text::same(option, "--json") {
                assert(all.skip(at as int).skip(1) =~= all.skip(at + 1));
                options.json = true;
                at = at + 1;
            } else if text::same(option, "--help") || text::same(option, "-h") {
                return Ok(None);
            } else {
                let quoted = text::debug_text(option);
                return Err(unexpected_text(option, quoted.as_str()));
            }
        }
        assert(all.skip(at as int).len() == 0);
        let bucket_name = match options.name {
            Some(name) => name,
            None => return Err("celld r2 branch requires --name".to_owned()),
        };
        let parent_bucket = match options.parent_bucket {
            Some(parent_bucket) => parent_bucket,
            None => return Err("celld r2 branch requires --parent-bucket".to_owned()),
        };
        Ok(
            Some(
                Command {
                    action: Action::Branch {
                        bucket_name,
                        parent_bucket,
                        fleet: FleetFlags {
                            bucket: options.bucket,
                            endpoint: options.endpoint,
                            region: options.region,
                        },
                        json: options.json,
                    },
                },
            ),
        )
    }
}

/// The first lines of the help.
pub open spec fn help_head() -> Seq<char> {
    "celld r2 \u{2014} R2 binding branch overlay\n\nUSAGE\n  celld r2 branch --name BUCKET_NAME --parent-bucket URI [--bucket CHILD] [fleet options]\n\nWrites `r2/<name>/base.json` on the child version bucket pointing at the\nparent version. Worker-visible overlay (GET miss -> parent, PUT -> child,\nDELETE -> tombstone under `r2/<name>/.tombstones/<key>`) is installed on\nthe next node start after branch.\n\nFLEET OPTIONS\n"@
}

/// The help, round the lines on a fleet's options.
pub fn print_help(fleet_help: &str) -> (help: String)
    ensures
        help@ == help_head() + fleet_help@ + "\n  --json                Print one JSON object"@,
{
    let mut help = "celld r2 \u{2014} R2 binding branch overlay\n\nUSAGE\n  celld r2 branch --name BUCKET_NAME --parent-bucket URI [--bucket CHILD] [fleet options]\n\nWrites `r2/<name>/base.json` on the child version bucket pointing at the\nparent version. Worker-visible overlay (GET miss -> parent, PUT -> child,\nDELETE -> tombstone under `r2/<name>/.tombstones/<key>`) is installed on\nthe next node start after branch.\n\nFLEET OPTIONS\n".to_owned();
    help.append(fleet_help);
    help.append("\n  --json                Print one JSON object");
    help
}

/// The answer as lines of text.
pub fn reply_text(parent_bucket: &str, duration_ms: u64) -> (lines: String)
    ensures
        lines@ == "parent_bucket: "@ + parent_bucket@ + "\nduration_ms: "@ + text::dec(
            duration_ms as nat,
        ),
{
    let mut lines = "parent_bucket: ".to_owned();
    lines.append(parent_bucket);
    lines.append("\nduration_ms: ");
    text::push_dec(&mut lines, duration_ms);
    lines
}

/// The note on a finished branch, from the quoted name of the binding.
pub fn branched_note(quoted_name: &str, parent_bucket: &str, duration_ms: u64) -> (note: String)
    ensures
        note@ == "Branched R2 binding "@ + quoted_name@ + " from "@ + parent_bucket@ + " in "@
            + text::dec(duration_ms as nat) + "ms"@,
{
    let mut note = "Branched R2 binding ".to_owned();
    note.append(quoted_name);
    note.append(" from ");
    note.append(parent_bucket);
    note.append(" in ");
    text::push_dec(&mut note, duration_ms);
    note.append("ms");
    note
}

proof fn lemma_options_differ()
    ensures
        "--name"@ != "--parent-bucket"@,
        "--name"@ != "--bucket"@,
        "--name"@ != "--endpoint"@,
        "--name"@ != "--region"@,
        "--parent-bucket"@ != "--bucket"@,
        "--parent-bucket"@ != "--endpoint"@,
        "--parent-bucket"@ != "--region"@,
        "--bucket"@ != "--endpoint"@,
        "--bucket"@ != "--region"@,
        "--endpoint"@ != "--region"@,
        !takes_value("--json"@),
        !takes_value("--help"@),
        !takes_value("-h"@),
        "--json"@ != "--help"@,
        "--json"@ != "-h"@,
        "branch"@ != "--help"@,
        "branch"@ != "-h"@,
        "branch"@ != "help"@,
{
    reveal_strlit("--name");
    reveal_strlit("--parent-bucket");
    reveal_strlit("--bucket");
    reveal_strlit("--endpoint");
    reveal_strlit("--region");
    reveal_strlit("--json");
    reveal_strlit("--help");
    reveal_strlit("-h");
    reveal_strlit("branch");
    reveal_strlit("help");
    assert("--name"@.len() == 6 && "--parent-bucket"@.len() == 15 && "--bucket"@.len() == 8
        && "--endpoint"@.len() == 10 && "--region"@.len() == 8 && "--json"@.len() == 6
        && "--help"@.len() == 6 && "-h"@.len() == 2 && "branch"@.len() == 6 && "help"@.len() == 4);
    assert("--bucket"@[2] == 'b' && "--region"@[2] == 'r');
    assert("--name"@[2] == 'n' && "--json"@[2] == 'j' && "--help"@[2] == 'h');
    assert("branch"@[0] == 'b' && "--help"@[0] == '-');
}

/// Options that were read to the end are read on from where they stand.
proof fn lemma_options_go_on(
    options: OptionsModel,
    front: Seq<Seq<char>>,
    rest: Seq<Seq<char>>,
    read: OptionsModel,
)
    requires
        read_options(options, front) == ParseModel::Options(read),
    ensures
        read_options(options, front + rest) == read_options(read, rest),
    decreases front.len(),
{
    if front.len() == 0 {
        assert(front + rest =~= rest);
    } else {
        assert((front + rest)[0] == front[0]);
        if takes_value(front[0]) {
            assert((front + rest)[1] == front[1]);
            assert((front + rest).skip(2) =~= front.skip(2) + rest);
            lemma_options_go_on(
                with_value(options, front[0], front[1]),
                front.skip(2),
                rest,
                read,
            );
        } else {
            assert((front + rest).skip(1) =~= front.skip(1) + rest);
            lemma_options_go_on(
                OptionsModel { json: true, ..options },
                front.skip(1),
                rest,
                read,
            );
        }
    }
}

/// Without arguments or with a word for help there is nothing to do, and anything but
/// `branch` is refused.
pub proof fn law_only_branch_is_a_command(
    arguments: Vec<String>,
    command: Result<Option<Command>, String>,
)
    requires
        call_ensures(Command::parse, (arguments,), command),
    ensures
        arguments@.len() == 0 ==> (command matches Ok(None)),
        arguments@.len() > 0 && (arguments@[0]@ == "help"@ || arguments@[0]@ == "--help"@
            || arguments@[0]@ == "-h"@) ==> (command matches Ok(None)),
        arguments@.len() > 0 && arguments@[0]@ != "help"@ && arguments@[0]@ != "--help"@
            && arguments@[0]@ != "-h"@ && arguments@[0]@ != "branch"@ ==> command is Err,
        arguments@.len() == 1 && arguments@[0]@ == "branch"@ ==> command is Err,
{
    let all = text::views(arguments@);
    assert(all.len() == arguments@.len());
    if arguments@.len() > 0 {
        assert(all[0] == arguments@[0]@);
    }
    lemma_options_differ();
    if arguments@.len() == 1 {
        assert(all.skip(1).len() == 0);
    }
}

/// A branch needs its name and its parent, and takes them from the argument behind
/// each, in either order; with these alone nothing else is set.
pub proof fn law_branch_takes_its_name_and_parent(
    arguments: Vec<String>,
    command: Result<Option<Command>, String>,
    name: Seq<char>,
    parent: Seq<char>,
)
    requires
        call_ensures(Command::parse, (arguments,), command),
        text::views(arguments@) == seq!["branch"@, "--name"@, name, "--parent-bucket"@, parent]
            || text::views(arguments@) == seq![
            "branch"@,
            "--parent-bucket"@,
            parent,
            "--name"@,
            name,
        ],
    ensures
        command matches Ok(Some(command)) && match command.action {
            Action::Branch { bucket_name, parent_bucket, fleet, json } => bucket_name@ == name
                && parent_bucket@ == parent && fleet.bucket is None && fleet.endpoint is None
                && fleet.region is None && !json,
        },
{
    lemma_options_differ();
    let all = text::views(arguments@);
    let rest = all.skip(1);
    reveal_with_fuel(read_options, 3);
    assert(rest[0] == all[1] && rest[1] == all[2]);
    assert(rest.skip(2)[0] == all[3] && rest.skip(2)[1] == all[4]);
    assert(rest.skip(2).skip(2).len() == 0);
    assert(read_options(no_options(), rest) == read_options(
        with_value(no_options(), rest[0], rest[1]),
        rest.skip(2),
    ));
}

/// A further option adds to what a command does: one with a value sets that value in
/// place of an earlier one and nothing else, `--json` asks for one object, and a word
/// for help asks for nothing else. One whose value is missing is refused, and so is
/// an argument that is no option.
pub proof fn law_further_options_add_to_a_command(
    arguments: Vec<String>,
    command: Command,
    more: Vec<String>,
    option: Seq<char>,
    value: Seq<char>,
    further: Result<Option<Command>, String>,
)
    requires
        call_ensures(Command::parse, (arguments,), Ok(Some(command))),
        call_ensures(Command::parse, (more,), further),
    ensures
        match command.action {
            Action::Branch { bucket_name, parent_bucket, fleet, json } => {
                let valued = text::views(more@) == text::views(arguments@).push(option).push(value)
                    && (option == "--name"@ || option == "--parent-bucket"@ || option
                    == "--bucket"@ || option == "--endpoint"@ || option == "--region"@);
                &&& valued ==> (further matches Ok(Some(after)) && match after.action {
                    Action::Branch { bucket_name: n, parent_bucket: p, fleet: f, json: j } => {
                        &&& n@ == if option == "--name"@ { value } else { bucket_name@ }
                        &&& p@ == if option == "--parent-bucket"@ { value } else { parent_bucket@ }
                        &&& maybe(f.bucket) == if option == "--bucket"@ {
                            Some(value)
                        } else {
                            maybe(fleet.bucket)
                        }
                        &&& maybe(f.endpoint) == if option == "--endpoint"@ {
                            Some(value)
                        } else {
                            maybe(fleet.endpoint)
                        }
                        &&& maybe(f.region) == if option == "--region"@ {
                            Some(value)
                        } else {
                            maybe(fleet.region)
                        }
                        &&& j == json
                    },
                })
                &&& text::views(more@) == text::views(arguments@).push("--json"@) ==> (
                further matches Ok(Some(after)) && match after.action {
                    Action::Branch { bucket_name: n, parent_bucket: p, fleet: f, json: j } => {
                        &&& n@ == bucket_name@ && p@ == parent_bucket@ && j
                        &&& maybe(f.bucket) == maybe(fleet.bucket)
                        &&& maybe(f.endpoint) == maybe(fleet.endpoint)
                        &&& maybe(f.region) == maybe(fleet.region)
                    },
                })
            },
        },
        text::views(more@) == text::views(arguments@).push("--help"@) || text::views(more@)
            == text::views(arguments@).push("-h"@) ==> (further matches Ok(None)),
        text::views(more@) == text::views(arguments@).push(option) && option != "--json"@ && option
            != "--help"@ && option != "-h"@ ==> further is Err,
{
    lemma_options_differ();
    let before = text::views(arguments@);
    let all = text::views(more@);
    let front = before.skip(1);
    let read = read_options(no_options(), front)->Options_0;
    assert(read_options(no_options(), front) is Options);
    reveal_with_fuel(read_options, 3);
    if all == before.push(option).push(value) {
        let rest = seq![option, value];
        assert(all.skip(1) =~= front + rest);
        assert(all[0] == before[0]);
        lemma_options_go_on(no_options(), front, rest, read);
        assert(rest.skip(2).len() == 0);
        if takes_value(option) {
            assert(read_options(read, rest) == ParseModel::Options(
                with_value(read, option, value),
            ));
        }
    }
    if all == before.push("--json"@) {
        let rest = seq!["--json"@];
        assert(all.skip(1) =~= front + rest);
        assert(all[0] == before[0]);
        lemma_options_go_on(no_options(), front, rest, read);
        assert(rest.skip(1).len() == 0);
    }
    if all == before.push("--help"@) {
        let rest = seq!["--help"@];
        assert(all.skip(1) =~= front + rest);
        assert(all[0] == before[0]);
        lemma_options_go_on(no_options(), front, rest, read);
    }
    if all == before.push("-h"@) {
        let rest = seq!["-h"@];
        assert(all.skip(1) =~= front + rest);
        assert(all[0] == before[0]);
        lemma_options_go_on(no_options(), front, rest, read);
    }
    if all == before.push(option) && option != "--json"@ && option != "--help"@ && option
        != "-h"@ {
        let rest = seq![option];
        assert(all.skip(1) =~= front + rest);
        assert(all[0] == before[0]);
        lemma_options_go_on(no_options(), front, rest, read);
    }
}

/// A wrong command line is told with the argument that makes it wrong.
pub proof fn law_wrong_argument_is_named(
    argument: &str,
    quoted: &str,
    message: String,
    arguments: Vec<String>,
    command: Result<Option<Command>, String>,
)
    requires
        call_ensures(unexpected_text, (argument, quoted), message),
        call_ensures(Command::parse, (arguments,), command),
    ensures
        argument@.len() > 0 && argument@[0] == '-' ==> message@ == "unknown option: "@ + argument@
            + "; run `celld r2 --help` for usage"@,
        argument@.len() == 0 || argument@[0] != '-' ==> message@
            == "`celld r2 branch` takes no positional argument: "@ + quoted@,
        command is Err && arguments@[0]@ != "branch"@ ==> command->Err_0@
            == "unknown `celld r2` subcommand: "@ + arguments@[0]@,
        command is Err && text::views(arguments@) == seq!["branch"@] ==> command->Err_0@
            == "celld r2 branch requires --name"@,
{
    reveal_strlit("-");
    if argument@.len() > 0 && argument@[0] == '-' {
        assert(argument@.subrange(0, 1) =~= "-"@);
    }
    if text::has_prefix(argument@, "-"@) {
        assert(argument@.subrange(0, 1)[0] == argument@[0]);
    }
    lemma_options_differ();
    let all = text::views(arguments@);
    assert(all.len() == arguments@.len());
    if arguments@.len() > 0 {
        assert(all[0] == arguments@[0]@);
    }
    if all == seq!["branch"@] {
        assert(all.skip(1).len() == 0);
    }
}

/// What is answered and noted names the parent and the time, and the note the
/// binding.
pub proof fn law_answer_names_parent_and_time(
    parent_bucket: &str,
    duration_ms: u64,
    lines: String,
    quoted_name: &str,
    note: String,
    fleet_help: &str,
    help: String,
)
    requires
        call_ensures(reply_text, (parent_bucket, duration_ms), lines),
        call_ensures(branched_note, (quoted_name, parent_bucket, duration_ms), note),
        call_ensures(print_help, (fleet_help,), help),
    ensures
        lines@ == "parent_bucket: "@ + parent_bucket@ + "\nduration_ms: "@ + text::dec(
            duration_ms as nat,
        ),
        note@ == "Branched R2 binding "@ + quoted_name@ + " from "@ + parent_bucket@ + " in "@
            + text::dec(duration_ms as nat) + "ms"@,
        exists|head: Seq<char>|
            help@ == #[trigger] (head + fleet_help@
                + "\n  --json                Print one JSON object"@),
{
}

} // verus!
