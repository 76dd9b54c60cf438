//! The command dispatcher and the nested inspect session, as a pure
//! state machine over trimmed input lines.
//!
//! The surrounding read loop owns the terminal: it reads one line,
//! hands it to `step` together with the current mode and registry, and
//! performs the returned action. `Main` is the ordinary dispatcher;
//! `Inspect` is the modal session entered by `server-edit`, in which
//! every line is a profile name to look up and which no line leaves.

use crate::config::{has_profile, is_first_match, Config, ServerConfig};
use crate::text::str_eq;
use vstd::prelude::*;

verus! {

/// The fixed command vocabulary of the main dispatcher. Every line that
/// is not exactly one of the six recognized strings is `Unknown`.
#[derive(Clone, Copy, Debug, PartialEq, Eq, Structural)]
pub enum Command {
    Help,
    Version,
    Author,
    Exit,
    Clear,
    ServerEdit,
    Unknown,
}

/// Which command a trimmed input line names.
pub open spec fn spec_parse_command(s: Seq<char>) -> Command {
    if s == "help"@ {
        Command::Help
    } else if s == "version"@ {
        Command::Version
    } else if s == "author"@ {
        Command::Author
    } else if s == "exit"@ {
        Command::Exit
    } else if s == "clear"@ {
        Command::Clear
    } else if s == "server-edit"@ {
        Command::ServerEdit
    } else {
        Command::Unknown
    }
}

/// Maps one trimmed input line to the command it names; the match is
/// exact, whole-line and case-sensitive.
pub fn parser_command(input: &str) -> (r: Command)
    ensures
        r == spec_parse_command(input@),
{
    if str_eq(input, "help") {
        Command::Help
    } else if str_eq(input, "version") {
        Command::Version
    } else if str_eq(input, "author") {
        Command::Author
    } else if str_eq(input, "exit") {
        Command::Exit
    } else if str_eq(input, "clear") {
        Command::Clear
    } else if str_eq(input, "server-edit") {
        Command::ServerEdit
    } else {
        Command::Unknown
    }
}

/// Each recognized command string names its own command, no two name
/// the same one, and every other line is `Unknown`: each line routes to
/// exactly one effect.
pub proof fn lemma_dispatcher_routing(s: Seq<char>)
    ensures
        spec_parse_command(s) == Command::Help <==> s == "help"@,
        spec_parse_command(s) == Command::Version <==> s == "version"@,
        spec_parse_command(s) == Command::Author <==> s == "author"@,
        spec_parse_command(s) == Command::Exit <==> s == "exit"@,
        spec_parse_command(s) == Command::Clear <==> s == "clear"@,
        spec_parse_command(s) == Command::ServerEdit <==> s == "server-edit"@,
        spec_parse_command(s) == Command::Unknown <==> (s != "help"@ && s != "version"@ && s
            != "author"@ && s != "exit"@ && s != "clear"@ && s != "server-edit"@),
{
    broadcast use vstd::string::group_string_axioms;

    reveal_strlit("help");
    reveal_strlit("version");
    reveal_strlit("author");
    reveal_strlit("exit");
    reveal_strlit("clear");
    reveal_strlit("server-edit");
    assert("help"@.len() == 4);
    assert("version"@.len() == 7);
    assert("author"@.len() == 6);
    assert("exit"@.len() == 4);
    assert("clear"@.len() == 5);
    assert("server-edit"@.len() == 11);
    assert("help"@[0] == 'h');
    assert("exit"@[0] == 'e');
    assert("help"@ != "exit"@);
}

/// The two states of the interactive session.
#[derive(Clone, Copy, Debug, PartialEq, Eq, Structural)]
pub enum Mode {
    Main,
    Inspect,
}

/// What the read loop is asked to do after a line is dispatched. The
/// loop performs the effect; nothing here touches the terminal.
#[derive(Debug)]
pub enum Action {
    /// Print the static help text.
    ShowHelp,
    /// Print the tool's version string.
    ShowVersion,
    /// Print the tool's author string.
    ShowAuthor,
    /// Terminate the process with exit code 0.
    Exit,
    /// Clear the display and reprint the banner, version and author.
    Clear,
    /// Reload the registry from storage, print the stored names, and
    /// enter the inspect session.
    EnterInspect,
    /// Print the generic error indicator.
    ShowError,
    /// Print all four fields of this profile.
    ShowProfile(ServerConfig),
    /// Report that no stored profile has the requested name.
    ShowNotFound,
}

/// One step of the session: the next mode and the effect of `line`.
///
/// In `Main`, the six recognized commands each map to their own action
/// and `server-edit` alone changes the mode; in `Inspect`, the mode
/// never changes and the line is looked up as a profile name under the
/// registry's first-match rule.
pub fn step(mode: Mode, registry: &Config, line: &str) -> (r: (Mode, Action))
    ensures
        mode == Mode::Main ==> {
            &&& (spec_parse_command(line@) == Command::Help ==> r == (
                Mode::Main,
                Action::ShowHelp,
            ))
            &&& (spec_parse_command(line@) == Command::Version ==> r == (
                Mode::Main,
                Action::ShowVersion,
            ))
            &&& (spec_parse_command(line@) == Command::Author ==> r == (
                Mode::Main,
                Action::ShowAuthor,
            ))
            &&& (spec_parse_command(line@) == Command::Exit ==> r == (Mode::Main, Action::Exit))
            &&& (spec_parse_command(line@) == Command::Clear ==> r == (Mode::Main, Action::Clear))
            &&& (spec_parse_command(line@) == Command::ServerEdit ==> r == (
                Mode::Inspect,
                Action::EnterInspect,
            ))
            &&& (spec_parse_command(line@) == Command::Unknown ==> r == (
                Mode::Main,
                Action::ShowError,
            ))
        },
        mode == Mode::Inspect ==> r.0 == Mode::Inspect && match r.1 {
            Action::ShowProfile(p) => exists|i: int|
                is_first_match(registry@, line@, i) && p@ == registry@[i],
            Action::ShowNotFound => !has_profile(registry@, line@),
            _ => false,
        },
{
    match mode {
        Mode::Main => match parser_command(line) {
            Command::Help => (Mode::Main, Action::ShowHelp),
            Command::Version => (Mode::Main, Action::ShowVersion),
            Command::Author => (Mode::Main, Action::ShowAuthor),
            Command::Exit => (Mode::Main, Action::Exit),
            Command::Clear => (Mode::Main, Action::Clear),
            Command::ServerEdit => (Mode::Inspect, Action::EnterInspect),
            Command::Unknown => (Mode::Main, Action::ShowError),
        },
        Mode::Inspect => match registry.find_server(line) {
            Some(p) => (Mode::Inspect, Action::ShowProfile(p.clone())),
            None => (Mode::Inspect, Action::ShowNotFound),
        },
    }
}

} // verus!
