//! Which command takes the text for the clipboard.

use vstd::prelude::*;

verus! {

/// How many commands there are to try.
pub const COMMANDS: usize = 4;

/// The name of a command.
pub open spec fn command_text(i: int) -> Seq<char> {
    if i == 0 {
        "pbcopy"@
    } else if i == 1 {
        "wl-copy"@
    } else if i == 2 {
        "xclip"@
    } else {
        "xsel"@
    }
}

/// The name of a command.
pub fn command_name(i: usize) -> (r: &'static str)
    requires
        i < COMMANDS,
    ensures
        r@ == command_text(i as int),
{
    if i == 0 {
        "pbcopy"
    } else if i == 1 {
        "wl-copy"
    } else if i == 2 {
        "xclip"
    } else {
        "xsel"
    }
}

/// The arguments of a command.
pub open spec fn argument_texts(i: int) -> Seq<Seq<char>> {
    if i == 2 {
        seq!["-selection"@, "clipboard"@]
    } else if i == 3 {
        seq!["--clipboard"@, "--input"@]
    } else {
        Seq::empty()
    }
}

/// The arguments of a command.
pub fn arguments(i: usize) -> (r: Vec<&'static str>)
    requires
        i < COMMANDS,
    ensures
        r@.map_values(|s: &'static str| s@) == argument_texts(i as int),
{
    let mut out: Vec<&'static str> = Vec::new();
    if i == 2 {
        out.push("-selection");
        out.push("clipboard");
    } else if i == 3 {
        out.push("--clipboard");
        out.push("--input");
    }
    assert(out@.map_values(|s: &'static str| s@) =~= argument_texts(i as int));
    out
}

/// What came of a command.
#[derive(Debug, Clone, Copy, PartialEq, Eq, Structural)]
pub enum Attempt {
    /// It took the text.
    Taken,
    /// There is no such command.
    Missing,
    /// It failed in another way.
    Failed,
}

/// What to do next.
#[derive(Debug, Clone, Copy, PartialEq, Eq, Structural)]
pub enum Next {
    /// The text was taken.
    Done,
    /// Another command is to be tried.
    Try(usize),
    /// The failure is to be reported.
    Report,
    /// There is no command left.
    Exhausted,
}

/// What follows when command `i` was tried: only a missing command lets the next one have
/// its turn.
pub open spec fn following(i: int, attempt: Attempt) -> Next {
    match attempt {
        Attempt::Taken => Next::Done,
        Attempt::Missing => if i + 1 < COMMANDS {
            Next::Try((i + 1) as usize)
        } else {
            Next::Exhausted
        },
        Attempt::Failed => Next::Report,
    }
}

/// Decides what follows when command `i` was tried.
pub fn after(i: usize, attempt: Attempt) -> (r: Next)
    requires
        i < COMMANDS,
    ensures
        r == following(i as int, attempt),
{
    match attempt {
        Attempt::Taken => Next::Done,
        Attempt::Missing => {
            if i + 1 < COMMANDS {
                Next::Try(i + 1)
            } else {
                Next::Exhausted
            }
        },
        Attempt::Failed => Next::Report,
    }
}

/// What is said where no command was found.
pub fn none_found() -> (r: &'static str)
    ensures
        r@ == "クリップボードにコピーするコマンドが見つかりません（pbcopy / wl-copy / xclip / xsel）"@,
{
    "クリップボードにコピーするコマンドが見つかりません（pbcopy / wl-copy / xclip / xsel）"
}

/// The commands are tried one after the other, as long as they are missing: none is passed over,
/// and behind the last one there is none left. One that took the text ends it, and so does one
/// that failed.
pub proof fn law_commands_are_tried_in_turn(i: int)
    requires
        0 <= i < 4,
    ensures
        i < 3 ==> following(i, Attempt::Missing) == Next::Try((i + 1) as usize),
        i == 3 ==> following(i, Attempt::Missing) is Exhausted,
        following(i, Attempt::Taken) is Done,
        following(i, Attempt::Failed) is Report,
{
}

} // verus!
