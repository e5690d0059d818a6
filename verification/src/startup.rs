//! What must hold before anything is touched: the process runs as root, the
//! operator on whose behalf it runs is known and has a home directory, and
//! access control lists can be used there.

use vstd::prelude::*;
use crate::accounts::{account_by_name, account_by_uid, current_uid, Account};
use crate::text::{contains_text, occurs_in};

verus! {

/// Why the run cannot start.
#[derive(PartialEq, Eq, Debug)]
pub enum StartupError {
    /// The process does not run as root.
    NotRoot,
    /// Neither the invoking user nor the process's own account has a name.
    NoRealUser,
    /// The account `user` has no entry, and so no home directory.
    NoHome { user: String },
    /// One of the tools that query and modify access control lists is absent.
    AclToolMissing,
    /// The file system that holds the home directory does not support
    /// access control lists.
    AclUnsupported,
    /// The query that probes for support could not be run at all.
    AclProbeFailed,
}

/// The account on whose behalf the links are kept.
#[derive(Debug, PartialEq, Eq)]
pub struct Operator {
    pub name: String,
    pub home: String,
}

/// How the probe of the home directory's access control list ended.
#[derive(Debug, PartialEq, Eq)]
pub enum Probe {
    /// The query tool ran; `stderr` is what it wrote to its error stream.
    Ran { success: bool, stderr: String },
    /// The query tool could not be started.
    NotRun,
}

/// Only root may create links in another user's home and change groups.
pub fn require_root(uid: u32) -> (r: Result<(), StartupError>)
    ensures
        r == if uid == 0 {
            Ok::<(), StartupError>(())
        } else {
            Err(StartupError::NotRoot)
        },
{
    if uid == 0 {
        Ok(())
    } else {
        Err(StartupError::NotRoot)
    }
}

/// The name handed over by the privilege-raising tool, if it is a name at
/// all: an absent or empty value names nobody.
pub open spec fn invoking_user(sudo_user: Option<String>) -> Option<String> {
    match sudo_user {
        Some(n) => if n@.len() > 0 {
            Some(n)
        } else {
            None
        },
        None => None,
    }
}

/// The operator's name: the invoking user where there is one, else the name
/// of the process's own account.
pub open spec fn real_user(sudo_user: Option<String>, own: Option<Account>) -> Result<
    String,
    StartupError,
> {
    match invoking_user(sudo_user) {
        Some(n) => Ok(n),
        None => match own {
            Some(a) => Ok(a.name),
            None => Err(StartupError::NoRealUser),
        },
    }
}

/// Whether the privilege-raising tool handed over a name.
pub fn has_name(sudo_user: &Option<String>) -> (r: bool)
    ensures
        r == invoking_user(*sudo_user) is Some,
{
    match sudo_user {
        Some(n) => n.as_str().unicode_len() > 0,
        None => false,
    }
}

/// Drops a name that is empty.
pub fn named(sudo_user: Option<String>) -> (r: Option<String>)
    ensures
        r == invoking_user(sudo_user),
{
    if has_name(&sudo_user) {
        sudo_user
    } else {
        None
    }
}

/// Chooses the operator's name from what is known.
pub fn choose_user(sudo_user: Option<String>, own: Option<Account>) -> (r: Result<
    String,
    StartupError,
>)
    ensures
        r == real_user(sudo_user, own),
{
    match named(sudo_user) {
        Some(n) => Ok(n),
        None => match own {
            Some(a) => Ok(a.name),
            None => Err(StartupError::NoRealUser),
        },
    }
}

/// The operator with the home directory of the account found under `name`.
pub fn operator_of(name: String, account: Option<Account>) -> (r: Result<Operator, StartupError>)
    ensures
        r == match account {
            Some(a) => Ok::<Operator, StartupError>(Operator { name, home: a.home }),
            None => Err(StartupError::NoHome { user: name }),
        },
{
    match account {
        Some(a) => Ok(Operator { name, home: a.home }),
        None => Err(StartupError::NoHome { user: name }),
    }
}

/// Resolves the operator from the process's credentials and the user
/// database. `sudo_user` is the name that the privilege-raising tool handed
/// over, if any. The process's own account is looked up only where that
/// name is absent or empty.
pub fn resolve_operator(sudo_user: Option<String>) -> (r: Result<Operator, StartupError>)
    ensures
        invoking_user(sudo_user) is Some && r is Ok ==> r->Ok_0.name == sudo_user->0,
        r is Err ==> r->Err_0 == StartupError::NotRoot || r->Err_0 == StartupError::NoRealUser
            || r->Err_0 is NoHome,
{
    let uid = current_uid();
    match require_root(uid) {
        Err(e) => Err(e),
        Ok(()) => {
            let own = if has_name(&sudo_user) {
                None
            } else {
                account_by_uid(uid)
            };
            match choose_user(sudo_user, own) {
                Err(e) => Err(e),
                Ok(name) => {
                    let account = account_by_name(name.as_str());
                    operator_of(name, account)
                },
            }
        },
    }
}

/// Both the tool that sets and the tool that reads access control lists
/// must be installed.
pub fn require_acl_tools(setfacl_found: bool, getfacl_found: bool) -> (r: Result<
    (),
    StartupError,
>)
    ensures
        r == if setfacl_found && getfacl_found {
            Ok::<(), StartupError>(())
        } else {
            Err(StartupError::AclToolMissing)
        },
{
    if setfacl_found && getfacl_found {
        Ok(())
    } else {
        Err(StartupError::AclToolMissing)
    }
}

/// The complaint by which the query tool reports a file system without
/// access control lists.
pub open spec fn reports_unsupported(stderr: Seq<char>) -> bool {
    occurs_in(stderr, "Operation not supported"@) || occurs_in(stderr, "not supported"@)
}

/// What a probe says about support for access control lists. A probe that
/// ran and failed for another reason than missing support is let through.
pub open spec fn probe_verdict(probe: Probe) -> Result<(), StartupError> {
    match probe {
        Probe::NotRun => Err(StartupError::AclProbeFailed),
        Probe::Ran { success, stderr } => if !success && reports_unsupported(stderr@) {
            Err(StartupError::AclUnsupported)
        } else {
            Ok(())
        },
    }
}

/// Judges the probe of the operator's home directory.
pub fn judge_acl_probe(probe: &Probe) -> (r: Result<(), StartupError>)
    ensures
        r == probe_verdict(*probe),
{
    match probe {
        Probe::NotRun => Err(StartupError::AclProbeFailed),
        Probe::Ran { success, stderr } => {
            if !*success && (contains_text(stderr.as_str(), "Operation not supported")
                || contains_text(stderr.as_str(), "not supported")) {
                Err(StartupError::AclUnsupported)
            } else {
                Ok(())
            }
        },
    }
}

} // verus!
