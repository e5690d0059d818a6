//! The system's user and group database, read through the `uzers` crate.
//!
//! What these lookups return depends on the machine and the moment, so
//! nothing is promised about their results beyond what holds of every
//! outcome.

use vstd::prelude::*;
use uzers::os::unix::UserExt;

verus! {

/// What the user database records about one account.
#[derive(Debug, PartialEq, Eq)]
pub struct Account {
    /// The login name.
    pub name: String,
    /// The numeric id of the account's primary group.
    pub primary_group: u32,
    /// The account's home directory.
    pub home: String,
}

/// `uzers::get_current_uid`: the id of the user that runs the process.
#[verifier::external_body]
pub(crate) fn current_uid() -> u32 {
    uzers::get_current_uid()
}

/// `uzers::get_user_by_uid`: the account with the given id, if the database
/// has one.
#[verifier::external_body]
pub(crate) fn account_by_uid(uid: u32) -> Option<Account> {
    uzers::get_user_by_uid(uid).map(
        |u|
            Account {
                name: u.name().to_string_lossy().into_owned(),
                primary_group: u.primary_group_id(),
                home: u.home_dir().to_string_lossy().into_owned(),
            },
    )
}

/// `uzers::get_user_by_name`: the account with the given login name, if the
/// database has one. A name that holds a NUL character matches no account.
/// The name recorded in an account is read from a C string, which ends at
/// its first NUL, so it holds none.
#[verifier::external_body]
pub(crate) fn account_by_name(name: &str) -> (r: Option<Account>)
    ensures
        r is Some ==> !name@.contains('\0'),
        r is Some ==> !r->0.name@.contains('\0'),
{
    uzers::get_user_by_name(name).map(
        |u|
            Account {
                name: u.name().to_string_lossy().into_owned(),
                primary_group: u.primary_group_id(),
                home: u.home_dir().to_string_lossy().into_owned(),
            },
    )
}

/// `uzers::get_user_groups`: the ids of the groups that the named user
/// belongs to, or `None` where the system cannot tell. The outside function
/// panics on a name that holds a NUL character, so such names are left out.
#[verifier::external_body]
pub(crate) fn group_ids_of(name: &str, primary_group: u32) -> (r: Option<Vec<u32>>)
    requires
        !name@.contains('\0'),
{
    uzers::get_user_groups(name, primary_group).map(|gs| gs.iter().map(|g| g.gid()).collect())
}

/// `uzers::get_group_by_gid`: the name of the group with the given id, if
/// the database has one.
#[verifier::external_body]
pub(crate) fn group_name_of(gid: u32) -> Option<String> {
    uzers::get_group_by_gid(gid).map(|g| g.name().to_string_lossy().into_owned())
}

} // verus!
