//! The command line parser: clap's types and calls, with the contracts that the
//! rest of the library relies on.

use clap::{Arg, ArgAction, ArgMatches, Command};
use vstd::prelude::*;

use crate::text::{optional_text, texts};

verus! {

/// clap's description of a command line.
#[verifier::external_type_specification]
#[verifier::external_body]
pub struct ExCommand(clap::Command);

/// clap's result of parsing a command line.
#[verifier::external_type_specification]
#[verifier::external_body]
pub struct ExArgMatches(clap::ArgMatches);

/// An option of a command line. One with a value name takes a value, one
/// without is a flag.
pub struct OptionView {
    pub id: Seq<char>,
    pub short: Option<char>,
    pub long: Seq<char>,
    pub required: bool,
    pub value_name: Option<Seq<char>>,
    pub help: Seq<char>,
}

/// The options of a command, in the order in which they were added.
pub uninterp spec fn command_options(command: clap::Command) -> Seq<OptionView>;

/// The name, the version and the author of a command.
pub uninterp spec fn command_heading(command: clap::Command) -> Seq<Seq<char>>;

/// Whether a command has nothing but a heading and options.
pub uninterp spec fn only_options(command: clap::Command) -> bool;

/// The options with a value that the matches know, each with the value that it
/// was given, if any.
pub uninterp spec fn matched_values(matches: clap::ArgMatches) -> Map<
    Seq<char>,
    Option<Seq<char>>,
>;

/// The flags that the matches know, each with whether it was given.
pub uninterp spec fn matched_flags(matches: clap::ArgMatches) -> Map<Seq<char>, bool>;

/// What parsing the arguments, the program's name first, by the options gives:
/// the values and the flags, or nothing when the arguments are refused or ask
/// for the help or the version.
pub uninterp spec fn parsed_line(options: Seq<OptionView>, arguments: Seq<Seq<char>>) -> Option<
    (Map<Seq<char>, Option<Seq<char>>>, Map<Seq<char>, bool>),
>;

/// Makes a command with `Command::new`, `Command::version` and
/// `Command::author`. Claimed of them: the command has this heading, no option
/// and nothing else.
#[verifier::external_body]
pub(crate) fn new_command(
    name: &'static str,
    version: &'static str,
    author: &'static str,
) -> (command: Command)
    ensures
        command_heading(command) == seq![name@, version@, author@],
        command_options(command) == Seq::<OptionView>::empty(),
        only_options(command),
{
    Command::new(name).version(version).author(author)
}

/// Adds an option that takes a value, made with `Arg::new` and the setters of
/// `Arg`, by `Command::arg`. Claimed of them: the option comes behind the others
/// and everything else stays.
#[verifier::external_body]
pub(crate) fn with_value(
    command: Command,
    id: &'static str,
    short: Option<char>,
    long: &'static str,
    required: bool,
    value_name: &'static str,
    help: &'static str,
) -> (extended: Command)
    requires
        short != Some('-'),
    ensures
        command_options(extended) == command_options(command).push(
            (OptionView {
                id: id@,
                short,
                long: long@,
                required,
                value_name: Some(value_name@),
                help: help@,
            }),
        ),
        command_heading(extended) == command_heading(command),
        only_options(extended) == only_options(command),
{
    let argument = Arg::new(id).short(short).long(long).required(required);
    command.arg(argument.value_name(value_name).help(help))
}

/// Adds a flag, made with `Arg::new`, the setters of `Arg` and
/// `ArgAction::SetTrue`, by `Command::arg`. Claimed of them: the flag comes
/// behind the other options and everything else stays.
#[verifier::external_body]
pub(crate) fn with_flag(
    command: Command,
    id: &'static str,
    short: Option<char>,
    long: &'static str,
    required: bool,
    help: &'static str,
) -> (extended: Command)
    requires
        short != Some('-'),
    ensures
        command_options(extended) == command_options(command).push(
            (OptionView {
                id: id@,
                short,
                long: long@,
                required,
                value_name: None,
                help: help@,
            }),
        ),
        command_heading(extended) == command_heading(command),
        only_options(extended) == only_options(command),
{
    let argument = Arg::new(id).short(short).long(long).required(required);
    command.arg(argument.help(help).action(ArgAction::SetTrue))
}

/// Whether two options share a name.
pub open spec fn clash(left: OptionView, right: OptionView) -> bool {
    ||| left.id == right.id
    ||| left.long == right.long
    ||| left.short is Some && left.short == right.short
}

/// Whether the options can stand in one command, beside the help and the version
/// that every command with a version has: no name is empty, used twice or one of
/// theirs, and no long name begins with a hyphen.
pub open spec fn sound(options: Seq<OptionView>) -> bool {
    &&& forall|i: int, j: int|
        0 <= i < j < options.len() ==> !clash(#[trigger] options[i], #[trigger] options[j])
    &&& forall|i: int|
        0 <= i < options.len() ==> {
            let option = #[trigger] options[i];
            &&& option.id.len() > 0
            &&& option.id != "help"@ && option.id != "version"@
            &&& option.long.len() > 0
            &&& option.long[0] != '-'
            &&& option.long != "help"@ && option.long != "version"@
            &&& option.short != Some('h') && option.short != Some('V')
        }
}

/// Whether the matches know every option.
pub open spec fn knows(matches: clap::ArgMatches, options: Seq<OptionView>) -> bool {
    forall|i: int|
        0 <= i < options.len() ==> {
            let option = #[trigger] options[i];
            if option.value_name is Some {
                matched_values(matches).dom().contains(option.id)
            } else {
                matched_flags(matches).dom().contains(option.id)
            }
        }
}

/// Parses the arguments, the program's name first, with
/// `Command::try_get_matches_from`. Claimed of it, for a command with nothing
/// but options that can stand together: the outcome depends on the options and
/// the arguments alone, and matches know every option of the command. What the
/// outcome is for given arguments, and the error, are left unsaid.
#[verifier::external_body]
pub(crate) fn match_arguments(command: Command, arguments: Vec<String>) -> (outcome: Option<
    ArgMatches,
>)
    requires
        only_options(command),
        sound(command_options(command)),
    ensures
        parsed_line(command_options(command), texts(arguments@)) == match outcome {
            Some(found) => Some((matched_values(found), matched_flags(found))),
            None => None,
        },
        outcome is Some ==> knows(outcome.unwrap(), command_options(command)),
{
    command.try_get_matches_from(arguments).ok()
}

/// Reads the value of an option with `ArgMatches::get_one`. Claimed of it: of an
/// option with a value that the matches know, it gives the value that the option
/// was given, if any.
#[verifier::external_body]
pub(crate) fn value_of(matches: &ArgMatches, id: &str) -> (value: Option<String>)
    requires
        matched_values(*matches).dom().contains(id@),
    ensures
        optional_text(value) == matched_values(*matches)[id@],
{
    matches.get_one::<String>(id).cloned()
}

/// Reads a flag with `ArgMatches::get_flag`. Claimed of it: of a flag that the
/// matches know, it gives whether the flag was given.
#[verifier::external_body]
pub(crate) fn flag_of(matches: &ArgMatches, id: &str) -> (given: bool)
    requires
        matched_flags(*matches).dom().contains(id@),
    ensures
        given == matched_flags(*matches)[id@],
{
    matches.get_flag(id)
}

} // verus!
