use vstd::prelude::*;

use crate::text::chars_of;

verus! {

/// What the command line asks for. A path is kept as the text it was given as.
#[derive(Debug, Clone, PartialEq)]
pub enum Command {
    Run(String),
    Check(String),
    Help,
    Version,
}

/// The mathematical form of a command.
pub enum CommandModel {
    Run(Seq<char>),
    Check(Seq<char>),
    Help,
    Version,
}

impl View for Command {
    type V = CommandModel;

    open spec fn view(&self) -> CommandModel {
        match self {
            Command::Run(p) => CommandModel::Run(p@),
            Command::Check(p) => CommandModel::Check(p@),
            Command::Help => CommandModel::Help,
            Command::Version => CommandModel::Version,
        }
    }
}

/// Whether `s` ends with `suffix`.
pub open spec fn has_suffix(s: Seq<char>, suffix: Seq<char>) -> bool {
    suffix.len() <= s.len() && s.subrange(s.len() - suffix.len(), s.len() as int) == suffix
}

pub open spec fn usage_message() -> Seq<char> {
    "usage: foxash run <file.foxash> | foxash check <file.foxash>"@
}

/// The command that the arguments (the program's name left out) ask for, or why there is none.
pub open spec fn command_for(args: Seq<Seq<char>>) -> Result<CommandModel, Seq<char>> {
    if args.len() == 0 {
        Err("missing command"@)
    } else if args.len() == 1 && (args[0] == "help"@ || args[0] == "--help"@ || args[0] == "-h"@) {
        Ok(CommandModel::Help)
    } else if args.len() == 1 && (args[0] == "version"@ || args[0] == "--version"@ || args[0] == "-V"@) {
        Ok(CommandModel::Version)
    } else if args.len() == 2 && args[0] == "run"@ {
        Ok(CommandModel::Run(args[1]))
    } else if args.len() == 2 && args[0] == "check"@ {
        Ok(CommandModel::Check(args[1]))
    } else if args.len() == 1 && has_suffix(args[0], ".foxash"@) {
        // A bare source file is still accepted, and run.
        Ok(CommandModel::Run(args[0]))
    } else {
        Err(usage_message())
    }
}

/// The texts of a sequence of strings.
pub open spec fn texts(args: Seq<String>) -> Seq<Seq<char>> {
    args.map_values(|a: String| a@)
}

fn is_text(argument: &String, text: &str) -> (r: bool)
    ensures
        r == (argument@ == text@),
{
    *argument == String::from_str(text)
}

fn ends_with_text(argument: &String, suffix: &str) -> (r: bool)
    ensures
        r == has_suffix(argument@, suffix@),
{
    let chars = chars_of(argument.as_str());
    let tail = chars_of(suffix);
    if tail.len() > chars.len() {
        return false;
    }
    let start = chars.len() - tail.len();
    let mut i: usize = 0;
    while i < tail.len()
        invariant
            chars@ == argument@,
            tail@ == suffix@,
            start == chars.len() - tail.len(),
            i <= tail.len(),
            forall|j: int| 0 <= j < i ==> chars@[start + j] == tail@[j],
        decreases tail.len() - i,
    {
        if chars[start + i] != tail[i] {
            assert(chars@.subrange(start as int, chars@.len() as int)[i as int] != tail@[i as int]);
            return false;
        }
        i = i + 1;
    }
    assert(chars@.subrange(start as int, chars@.len() as int) =~= tail@);
    true
}

pub fn parse_arguments(arguments: &[String]) -> (r: Result<Command, String>)
    ensures
        match r {
            Ok(c) => command_for(texts(arguments@)) == Ok::<CommandModel, Seq<char>>(c@),
            Err(m) => command_for(texts(arguments@)) == Err::<CommandModel, Seq<char>>(m@),
        },
{
    let ghost args = texts(arguments@);
    if arguments.len() == 0 {
        return Err(String::from_str("missing command"));
    }
    assert(args[0] == arguments@[0]@);
    if arguments.len() == 1 && (is_text(&arguments[0], "help") || is_text(&arguments[0], "--help")
        || is_text(&arguments[0], "-h")) {
        return Ok(Command::Help);
    }
    if arguments.len() == 1 && (is_text(&arguments[0], "version") || is_text(&arguments[0], "--version")
        || is_text(&arguments[0], "-V")) {
        return Ok(Command::Version);
    }
    if arguments.len() == 2 && is_text(&arguments[0], "run") {
        assert(args[1] == arguments@[1]@);
        return Ok(Command::Run(arguments[1].clone()));
    }
    if arguments.len() == 2 && is_text(&arguments[0], "check") {
        assert(args[1] == arguments@[1]@);
        return Ok(Command::Check(arguments[1].clone()));
    }
    // A bare source file is still accepted, and run.
    if arguments.len() == 1 && ends_with_text(&arguments[0], ".foxash") {
        return Ok(Command::Run(arguments[0].clone()));
    }
    Err(String::from_str("usage: foxash run <file.foxash> | foxash check <file.foxash>"))
}

} // verus!
