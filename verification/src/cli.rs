//! The command-line surface: the parsed arguments and the decisions
//! the prompts turn on.
//!
//! Argument parsing itself is plumbing around the library; what is
//! decided from the parsed values lives here.

use vstd::prelude::*;

verus! {

/// The parsed command line.
pub struct CliArgs {
    /// Whether prompts are answered yes without asking.
    pub yes: bool,
    pub subcommand: CliSubcommand,
}

/// The available subcommands.
pub enum CliSubcommand {
    /// List all snapshots.
    List,
    /// Take a snapshot of the current system state.
    Create(CliCreate),
    /// Delete an existing snapshot.
    Delete(CliDelete),
    /// Restore the system to a snapshot.
    Restore(CliRestore),
}

/// Arguments of the create subcommand.
pub struct CliCreate {
    pub name: Option<String>,
    /// The description of the snapshot.
    pub description: Option<String>,
    /// Which subvolumes to snapshot; everything eligible when absent.
    pub subvolumes: Option<Vec<String>>,
}

/// Arguments of the delete subcommand.
pub struct CliDelete {
    /// The identity of the snapshot to delete.
    pub snapshot: String,
}

/// Arguments of the restore subcommand.
pub struct CliRestore {
    /// Which subvolumes to restore; all captured ones when absent.
    pub subvolumes: Option<Vec<String>>,
    /// The identity of the snapshot to restore.
    pub snapshot: String,
}

/// Whether one key read from the operator confirms a prompt: only
/// `y`, in either case, does.
pub fn is_affirmative_key(key: u8) -> (r: bool)
    ensures
        r <==> (key == 121 || key == 89),
{
    let c = key as char;
    c == 'y' || c == 'Y'
}

/// Whether a prompted action goes ahead: the standing yes flag, or an
/// affirmative key.
pub fn should_proceed(yes: bool, key: Option<u8>) -> (r: bool)
    ensures
        r <==> (yes || (key is Some && (key.unwrap() == 121 || key.unwrap() == 89))),
{
    if yes {
        true
    } else {
        match key {
            Some(k) => is_affirmative_key(k),
            None => false,
        }
    }
}

} // verus!
