//! The system commands that the caller runs on the library's behalf, and how
//! a run of one may end.

use vstd::prelude::*;
use crate::text::{owned, texts};

verus! {

/// A program and the arguments to run it with.
#[derive(Debug, PartialEq, Eq)]
pub struct Command {
    pub program: String,
    pub args: Vec<String>,
}

/// How an attempt to run a system command ended.
#[derive(Clone, Copy, PartialEq, Eq, Debug)]
pub enum CommandResult {
    /// The command ran and reported success.
    Succeeded,
    /// The command ran and reported failure.
    Failed,
    /// The command could not be started.
    NotStarted,
}

/// The command that adds `user` to the supplementary group `group`, keeping
/// the groups that the user already has.
pub fn add_to_group_command(group: &str, user: &str) -> (r: Command)
    ensures
        r.program@ == "usermod"@,
        texts(r.args@) == seq!["-a"@, "-G"@, group@, user@],
{
    let mut args: Vec<String> = Vec::new();
    args.push(owned("-a"));
    args.push(owned("-G"));
    args.push(owned(group));
    args.push(owned(user));
    assert(texts(args@) =~= seq!["-a"@, "-G"@, group@, user@]);
    Command { program: owned("usermod"), args }
}

/// The command that modifies the access control list of `directory` by the
/// entry `entry`.
pub fn grant_command(entry: &str, directory: &str) -> (r: Command)
    ensures
        r.program@ == "setfacl"@,
        texts(r.args@) == seq!["-m"@, entry@, directory@],
{
    let mut args: Vec<String> = Vec::new();
    args.push(owned("-m"));
    args.push(owned(entry));
    args.push(owned(directory));
    assert(texts(args@) =~= seq!["-m"@, entry@, directory@]);
    Command { program: owned("setfacl"), args }
}

} // verus!
