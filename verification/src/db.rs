//! Database migrations: the arguments handed to the migration script.
use vstd::prelude::*;

use crate::text::{owned, views};

verus! {

/// The arguments that show the migration status.
pub fn status_args() -> (r: Vec<String>)
    ensures
        views(r@) == seq!["status"@],
{
    let mut r = Vec::new();
    r.push(owned("status"));
    assert(views(r@) =~= seq!["status"@]);
    r
}

/// The arguments that apply pending migrations: a dry run previews them
/// (and ignores `force`); otherwise `--force` is passed when asked for.
pub fn migrate_args(dry_run: bool, force: bool) -> (r: Vec<String>)
    ensures
        views(r@) == if dry_run {
            seq!["migrate"@, "--dry-run"@]
        } else if force {
            seq!["migrate"@, "--force"@]
        } else {
            seq!["migrate"@]
        },
{
    let mut r = Vec::new();
    r.push(owned("migrate"));
    if dry_run {
        r.push(owned("--dry-run"));
        assert(views(r@) =~= seq!["migrate"@, "--dry-run"@]);
    } else if force {
        r.push(owned("--force"));
        assert(views(r@) =~= seq!["migrate"@, "--force"@]);
    } else {
        assert(views(r@) =~= seq!["migrate"@]);
    }
    r
}

/// The arguments that roll back the last migration; none without `force`,
/// since a rollback destroys data and must be confirmed.
pub fn rollback_args(force: bool) -> (r: Option<Vec<String>>)
    ensures
        !force ==> r is None,
        force ==> (r matches Some(a) && views(a@) == seq!["rollback"@, "--force"@]),
{
    if !force {
        return None;
    }
    let mut r = Vec::new();
    r.push(owned("rollback"));
    r.push(owned("--force"));
    assert(views(r@) =~= seq!["rollback"@, "--force"@]);
    Some(r)
}

/// The arguments that create a migration template. The script names the new
/// migration itself; the name given on the command line is only shown.
pub fn new_migration_args() -> (r: Vec<String>)
    ensures
        views(r@) == seq!["new"@],
{
    let mut r = Vec::new();
    r.push(owned("new"));
    assert(views(r@) =~= seq!["new"@]);
    r
}

} // verus!
