//! The commands the program understands, as plain values.
use vstd::prelude::*;

verus! {

/// Options of the self-upgrade command.
#[derive(Debug)]
pub struct UpgradeCommand {
    /// The version to upgrade to, when not the latest.
    pub version: Option<String>,
    /// Whether to skip the confirmation.
    pub yes: bool,
}

/// The command line a subcommand acts on, in words.
#[derive(Debug)]
pub struct EvalCommand {
    pub commands: Vec<String>,
}

#[derive(Debug)]
pub enum Command {
    Upgrade(UpgradeCommand),
    On,
    Off,
    Install,
    Uninstall,
    Inject(EvalCommand),
    SetEnv(EvalCommand),
    Unset(EvalCommand),
    User { username: Option<String>, reset: bool },
}

impl EvalCommand {
    /// The words joined by single spaces: the command that rules are matched
    /// against.
    pub fn command_line(&self) -> (r: String)
        ensures
            r@ == crate::text::joined(crate::text::views(self.commands@), " "@),
    {
        crate::text::join(&self.commands, " ")
    }
}

/// Whether the update check runs before a command: all but the hook
/// commands check.
pub fn checks_for_update(c: &Command) -> (r: bool)
    ensures
        r == !(c is On || c is Off),
{
    match c {
        Command::On | Command::Off => false,
        _ => true,
    }
}

} // verus!
