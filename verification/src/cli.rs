//! The command line: which command the arguments ask for, and the usage
//! text.

use vstd::prelude::*;

verus! {

/// What the command line asks for.
pub enum Command {
    /// Print the usage text and exit with this code.
    Usage { exit_code: i32 },
    /// Print the version and exit with 0.
    Version,
    /// List the online displays.
    List,
    /// Enable (`true`) or disable (`false`) the display named by a UUID.
    Toggle { uuid: String, enabled: bool },
}

/// The mathematical value of a [`Command`].
pub enum CommandView {
    Usage { exit_code: i32 },
    Version,
    List,
    Toggle { uuid: Seq<char>, enabled: bool },
}

impl View for Command {
    type V = CommandView;

    open spec fn view(&self) -> CommandView {
        match self {
            Command::Usage { exit_code } => CommandView::Usage { exit_code: *exit_code },
            Command::Version => CommandView::Version,
            Command::List => CommandView::List,
            Command::Toggle { uuid, enabled } => CommandView::Toggle {
                uuid: uuid@,
                enabled: *enabled,
            },
        }
    }
}

/// The command that the arguments `args` ask for; `args[0]` is the program
/// name.
pub open spec fn command_of(args: Seq<Seq<char>>) -> CommandView {
    if args.len() < 2 {
        CommandView::Usage { exit_code: 1 }
    } else if args[1] == "help"@ || args[1] == "--help"@ || args[1] == "-h"@ {
        CommandView::Usage { exit_code: 0 }
    } else if args[1] == "--version"@ || args[1] == "-V"@ {
        CommandView::Version
    } else if args[1] == "list"@ {
        CommandView::List
    } else if args[1] == "disable"@ || args[1] == "enable"@ {
        if args.len() != 3 {
            CommandView::Usage { exit_code: 1 }
        } else {
            CommandView::Toggle { uuid: args[2], enabled: args[1] == "enable"@ }
        }
    } else {
        CommandView::Usage { exit_code: 1 }
    }
}


/// `enable` and `disable` take exactly one UUID: with any other number of
/// arguments they only print the usage and fail. A request to change a
/// display is made only by `enable <uuid>` or `disable <uuid>`, for that
/// UUID, enabling exactly when the word is `enable`. Help words print the
/// usage and succeed; no arguments print it and fail.
pub proof fn law_command_line(args: Seq<Seq<char>>)
    ensures
        args.len() >= 2 && (args[1] == "enable"@ || args[1] == "disable"@) && args.len() != 3
            ==> command_of(args) == (CommandView::Usage { exit_code: 1 }),
        args.len() == 3 && args[1] == "enable"@ ==> command_of(args) == (CommandView::Toggle {
            uuid: args[2],
            enabled: true,
        }),
        args.len() == 3 && args[1] == "disable"@ ==> command_of(args) == (CommandView::Toggle {
            uuid: args[2],
            enabled: false,
        }),
        (command_of(args) is Toggle) ==> args.len() == 3 && command_of(args)->uuid == args[2] && (
        args[1] == "enable"@ || args[1] == "disable"@) && command_of(args)->enabled == (args[1]
            == "enable"@),
        args.len() < 2 ==> command_of(args) == (CommandView::Usage { exit_code: 1 }),
        args.len() >= 2 && (args[1] == "help"@ || args[1] == "--help"@ || args[1] == "-h"@)
            ==> command_of(args) == (CommandView::Usage { exit_code: 0 }),
        args.len() >= 2 && (args[1] == "--version"@ || args[1] == "-V"@) ==> command_of(args)
            == CommandView::Version,
        args.len() >= 2 && args[1] == "list"@ ==> command_of(args) == CommandView::List,
{
    reveal_strlit("help");
    reveal_strlit("--help");
    reveal_strlit("-h");
    reveal_strlit("--version");
    reveal_strlit("-V");
    reveal_strlit("list");
    reveal_strlit("enable");
    reveal_strlit("disable");
    assert("enable"@[0] != "--help"@[0]);
    assert("enable"@ != "--help"@);
    assert("enable"@.len() != "disable"@.len());
    assert("-V"@[1] != "-h"@[1]);
    assert("-V"@ != "-h"@);
    assert("list"@[0] != "help"@[0]);
    assert("list"@ != "help"@);
    assert("--version"@.len() != "help"@.len() || "--version"@[1] != "help"@[1]);
    assert("--version"@ != "help"@);
    assert("--version"@.len() != "--help"@.len() || "--version"@[1] != "--help"@[1]);
    assert("--version"@ != "--help"@);
    assert("--version"@.len() != "-h"@.len() || "--version"@[1] != "-h"@[1]);
    assert("--version"@ != "-h"@);
    assert("-V"@.len() != "help"@.len() || "-V"@[1] != "help"@[1]);
    assert("-V"@ != "help"@);
    assert("-V"@.len() != "--help"@.len() || "-V"@[1] != "--help"@[1]);
    assert("-V"@ != "--help"@);
    assert("-V"@.len() != "-h"@.len() || "-V"@[1] != "-h"@[1]);
    assert("-V"@ != "-h"@);
}

/// The views of the arguments.
pub open spec fn args_view(args: Seq<String>) -> Seq<Seq<char>> {
    args.map_values(|a: String| a@)
}

fn is(arg: &String, word: &str) -> (r: bool)
    ensures
        r == (arg@ == word@),
{
    let w = String::from_str(word);
    *arg == w
}

/// The command that the command-line arguments ask for.
pub fn parse_command(args: &Vec<String>) -> (c: Command)
    ensures
        c@ == command_of(args_view(args@)),
        args@.len() >= 2 && (args@[1]@ == "enable"@ || args@[1]@ == "disable"@) && args@.len()
            != 3 ==> c@ == (CommandView::Usage { exit_code: 1 }),
        (c@ is Toggle) ==> args@.len() == 3 && c@->uuid == args@[2]@ && (args@[1]@ == "enable"@
            || args@[1]@ == "disable"@) && c@->enabled == (args@[1]@ == "enable"@),
{
    proof {
        law_command_line(args_view(args@));
        if args@.len() >= 2 {
            assert(args_view(args@)[1] == args@[1]@);
        }
        if args@.len() >= 3 {
            assert(args_view(args@)[2] == args@[2]@);
        }
    }
    let ghost view = args_view(args@);
    if args.len() < 2 {
        return Command::Usage { exit_code: 1 };
    }
    let arg = &args[1];
    assert(view[1] == arg@);
    if is(arg, "help") || is(arg, "--help") || is(arg, "-h") {
        Command::Usage { exit_code: 0 }
    } else if is(arg, "--version") || is(arg, "-V") {
        Command::Version
    } else if is(arg, "list") {
        Command::List
    } else if is(arg, "disable") || is(arg, "enable") {
        if args.len() != 3 {
            Command::Usage { exit_code: 1 }
        } else {
            assert(view[2] == args@[2]@);
            Command::Toggle { uuid: args[2].clone(), enabled: is(arg, "enable") }
        }
    } else {
        Command::Usage { exit_code: 1 }
    }
}

/// The usage text, line by line, for the program called `program` and
/// described by `description`.
pub open spec fn usage_text(description: Seq<char>, program: Seq<char>) -> Seq<Seq<char>> {
    seq![
        description,
        ""@,
        "Usage: "@ + program + " <COMMAND>"@,
        ""@,
        "Commands:"@,
        "  list            List online displays"@,
        "  disable <UUID>  Disable a display by UUID"@,
        "  enable <UUID>   Enable a display by UUID"@,
        ""@,
        "Options:"@,
        "  -h, --help     Print help"@,
        "  -V, --version  Print version"@,
    ]
}


/// The usage text opens with the description, names the program on its
/// usage line, and lists the three commands and two options.
pub proof fn law_usage_text(description: Seq<char>, program: Seq<char>)
    ensures
        usage_text(description, program).len() == 12,
        usage_text(description, program)[0] == description,
        usage_text(description, program)[2].subrange(7, 7 + program.len() as int) == program,
        usage_text(description, program)[2].take(7) == seq!['U', 's', 'a', 'g', 'e', ':', ' '],
        usage_text(description, program)[1].len() == 0,
        usage_text(description, program)[3].len() == 0,
        usage_text(description, program)[8].len() == 0,
{
    reveal_strlit("Usage: ");
    reveal_strlit("");
    let l = usage_text(description, program)[2];
    assert(l.subrange(7, 7 + program.len() as int) =~= program);
    assert(l.take(7) =~= seq!['U', 's', 'a', 'g', 'e', ':', ' ']);
}

/// The usage text, line by line.
pub fn usage_lines(description: &str, program: &str) -> (lines: Vec<String>)
    ensures
        lines@.map_values(|l: String| l@) == usage_text(description@, program@),
{
    let mut usage = String::from_str("Usage: ");
    usage.append(program);
    usage.append(" <COMMAND>");
    let lines = vec![
        String::from_str(description),
        String::from_str(""),
        usage,
        String::from_str(""),
        String::from_str("Commands:"),
        String::from_str("  list            List online displays"),
        String::from_str("  disable <UUID>  Disable a display by UUID"),
        String::from_str("  enable <UUID>   Enable a display by UUID"),
        String::from_str(""),
        String::from_str("Options:"),
        String::from_str("  -h, --help     Print help"),
        String::from_str("  -V, --version  Print version"),
    ];
    assert(lines@.map_values(|l: String| l@) =~= usage_text(description@, program@));
    lines
}

/// The line printed for a failed request: `Error: ` and the message.
pub fn error_line(message: &String) -> (line: String)
    ensures
        line@ == "Error: "@ + message@,
{
    let mut line = String::from_str("Error: ");
    line.append(message.as_str());
    line
}

} // verus!
