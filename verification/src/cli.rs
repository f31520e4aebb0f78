//! The command line.

use vstd::prelude::*;

verus! {

/// What the user asks for.
pub enum Command {
    /// To be told how to use the program.
    Help,
    /// To mount at the given path.
    MountAt(String),
    /// To mount wherever is best.
    MountDefault,
}

/// What the user asks for, as a mathematical value.
pub enum CommandView {
    Help,
    MountAt(Seq<char>),
    MountDefault,
}

impl View for Command {
    type V = CommandView;

    open spec fn view(&self) -> CommandView {
        match self {
            Command::Help => CommandView::Help,
            Command::MountAt(path) => CommandView::MountAt(path@),
            Command::MountDefault => CommandView::MountDefault,
        }
    }
}

/// The name that the program goes by: what it was called, if that is known.
pub open spec fn program_of(args: Seq<Seq<char>>) -> Seq<char> {
    if args.len() > 0 {
        args[0]
    } else {
        "ssh-agent-fs"@
    }
}

/// What the first argument after the program's name asks for.
pub open spec fn command_of(args: Seq<Seq<char>>) -> CommandView {
    if args.len() < 2 {
        CommandView::MountDefault
    } else if args[1] == "-h"@ || args[1] == "--help"@ {
        CommandView::Help
    } else {
        CommandView::MountAt(args[1])
    }
}

/// Takes the command line apart: the name that the program goes by, and what
/// the user asks for. Further arguments are ignored.
pub fn parse_args(args: &Vec<String>) -> (r: (String, Command))
    ensures
        r.0@ == program_of(Seq::new(args@.len(), |i: int| args@[i]@)),
        r.1@ == command_of(Seq::new(args@.len(), |i: int| args@[i]@)),
{
    let program: String = if args.len() > 0 {
        args[0].clone()
    } else {
        "ssh-agent-fs".to_owned()
    };
    let command: Command = if args.len() < 2 {
        Command::MountDefault
    } else if args[1] == "-h".to_owned() || args[1] == "--help".to_owned() {
        Command::Help
    } else {
        Command::MountAt(args[1].clone())
    };
    (program, command)
}

/// How to use the program, after its name.
pub const HELP: &'static str = " [MOUNTPOINT]

Mounts a FUSE filesystem exposing the SSH agent's public keys as predictable
files (one .pub per identity), so you can reference them in ~/.ssh/config or
in other SSH clients.

If MOUNTPOINT is omitted, a per-user runtime directory is chosen automatically:
  $XDG_RUNTIME_DIR/ssh-agent-fs/   (preferred)
  /run/user/$UID/ssh-agent-fs/
  $TMPDIR/ssh-agent-fs-$UID/
  /tmp/ssh-agent-fs-$UID/

The chosen directory will be created with mode 0700 if it doesn't exist, and
the process refuses to start if it exists but is owned by another user.

Environment:
  SSH_AUTH_SOCK   required; path to the SSH agent's Unix socket.";

/// How to use the program that goes by the name `prog`.
pub fn help_text(prog: &str) -> (s: String)
    ensures
        s@ == "Usage: "@ + prog@ + HELP@,
{
    let mut s: String = "Usage: ".to_owned();
    s.append(prog);
    s.append(HELP);
    s
}

/// Only the first argument after the program's name matters: none asks for the
/// best mountpoint, `-h` and `--help` ask for help, and any other asks for a
/// mount at exactly that path, however long it is.
pub proof fn law_first_argument_decides(args: Seq<Seq<char>>)
    ensures
        args.len() < 2 <==> command_of(args) is MountDefault,
        command_of(args) is Help <==> args.len() >= 2 && (args[1] == "-h"@ || args[1]
            == "--help"@),
        command_of(args) matches CommandView::MountAt(path) ==> path == args[1],
{
}

/// Arguments after the first, and the name that the program was called by, do
/// not change what is asked for; and arguments do not change the program's name.
pub proof fn law_further_arguments_are_ignored(
    prog1: Seq<char>,
    rest1: Seq<Seq<char>>,
    prog2: Seq<char>,
    rest2: Seq<Seq<char>>,
    first: Seq<char>,
)
    ensures
        command_of(seq![prog1, first] + rest1) == command_of(seq![prog2, first] + rest2),
        program_of(seq![prog1] + rest1) == prog1,
        program_of(Seq::empty()) == "ssh-agent-fs"@,
{
}

/// A command stands for what it holds.
pub proof fn law_command_stands_for_itself(command: Command)
    ensures
        match command {
            Command::Help => command@ is Help,
            Command::MountAt(path) => command@ == CommandView::MountAt(path@),
            Command::MountDefault => command@ is MountDefault,
        },
{
}

} // verus!
