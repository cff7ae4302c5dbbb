//! The clear command: an optional backup, then the removal of every row.

use vstd::prelude::*;
use crate::clt::ClearArgs;
use crate::db::{backup_outcome, clear_records, open_database, BackupOutcome, StoreError, StoreErrorKind};

verus! {

/// What a clear reports once it is done, given whether a backup was asked for
/// and the path of the backup that was written, if any.
pub open spec fn clear_report(backup: bool, written: Option<Seq<char>>) -> Seq<char> {
    if backup {
        match written {
            Some(path) => "Records cleared. Backup stored as "@ + path + "."@,
            None => "Records cleared. Backup skipped because no database file was present."@,
        }
    } else {
        "Records cleared."@
    }
}

/// The report of a clear that is done.
pub fn report(backup: bool, written: &Option<String>) -> (r: String)
    ensures
        r@ == clear_report(
            backup,
            match written {
                Some(path) => Some(path@),
                None => None,
            },
        ),
{
    if backup {
        match written {
            Some(path) => {
                let mut r = String::from_str("Records cleared. Backup stored as ");
                r.append(path.as_str());
                r.append(".");
                r
            },
            None => String::from_str(
                "Records cleared. Backup skipped because no database file was present.",
            ),
        }
    } else {
        String::from_str("Records cleared.")
    }
}

/// Carries out a clear on the store at `path`. The caller says whether the
/// store's file was present and, where the store had to be copied, the words of
/// the failure if the copy failed.
///
/// A failed copy is the failure `Backup`: the store is not opened and nothing
/// is removed. A backup that was asked for while no store was present is no
/// failure: the rows are removed and the report says that the backup was
/// skipped. Fails with `Connect` or `CreateTable` where the store does not open,
/// and with `Clear` where the engine fails to remove the rows.
pub fn run(args: ClearArgs, path: &str, store_present: bool, copy_failure: Option<String>) -> (r:
    Result<String, StoreError>)
    ensures
        args.backup && store_present && copy_failure is Some ==> r is Err && r->Err_0.kind
            == StoreErrorKind::Backup && r->Err_0.target@ == path@ + ".backup"@ && r->Err_0.detail
            == copy_failure.unwrap(),
        !(args.backup && store_present && copy_failure is Some) && r is Err ==> {
            ||| r->Err_0.kind == StoreErrorKind::Connect
            ||| r->Err_0.kind == StoreErrorKind::CreateTable
            ||| r->Err_0.kind == StoreErrorKind::Clear
        },
        r is Ok ==> r->Ok_0@ == clear_report(
            args.backup,
            if args.backup && store_present {
                Some(path@ + ".backup"@)
            } else {
                None
            },
        ),
{
    let outcome = backup_outcome(path, args.backup, store_present, copy_failure);
    if let BackupOutcome::Failed(target, words) = outcome {
        return Err(StoreError { kind: StoreErrorKind::Backup, detail: words, target: target });
    }
    match open_database(path) {
        Err(error) => Err(error),
        Ok(conn) => match clear_records(&conn, outcome) {
            Err(error) => Err(error),
            Ok(written) => Ok(report(args.backup, &written)),
        },
    }
}

} // verus!
