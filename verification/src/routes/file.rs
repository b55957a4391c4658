//! `/file/`: write files, and list the files written since a watermark.
//!
//! A file belongs to a vault: a write that names an unknown vault is
//! refused before anything is written. A listing is never refused: for a
//! vault without files, known or not, it is empty.

use crate::clock::now_millis;
use crate::file_sync::{
    batch_state, changed_since, is_changed, moved, record_at, stamped_later, stored,
    update_refused,
    update_rows, upsert_possible, upserted, views, write_state, write_views, written_records,
    FileStore, FileWrite, FileWriteView,
};
use crate::models::file::{File, FileView};
use crate::routes::{AppError, AppErrorView, ServerState};
use crate::vault_store::has_id;
use vstd::prelude::*;

verus! {

/// The status of the answer to an update.
pub const OK: u16 = 200;

/// What a request that names an unknown vault is told.
pub const NO_VAULT: &'static str = "No vault found";

/// An explicit update: the file at `path` becomes `file`.
#[derive(Debug)]
pub struct FileUpdateRequest {
    pub path: String,
    pub file: File,
}

/// The query of a listing: the vault, and the latest stamp that the client
/// has seen.
#[derive(Debug)]
pub struct LastSync {
    pub last_sync: i64,
    pub vault_id: i32,
}

/// The answer to a listing.
#[derive(Debug)]
pub struct Files {
    pub files: Vec<File>,
}

/// The view of a record that may be there.
pub open spec fn view_of(file: Option<File>) -> Option<FileView> {
    match file {
        Some(f) => Some(f@),
        None => None,
    }
}

/// The error for an unknown vault.
pub open spec fn no_vault() -> AppErrorView {
    AppErrorView::NotFound(NO_VAULT@)
}

/// What a submitted file asks to be written. Its identifier, fingerprint
/// and stamp are the server's to set and are ignored.
pub open spec fn write_of(f: FileView) -> FileWriteView {
    FileWriteView { vault_id: f.vault_id, path: f.path, content: f.content }
}

/// What a list of submitted files asks to be written.
pub open spec fn writes_of(files: Seq<File>) -> Seq<FileWriteView> {
    files.map_values(|f: File| write_of(f@))
}

/// Whether every submitted file names a known vault.
pub open spec fn vaults_known(state: &ServerState, files: Seq<File>) -> bool {
    forall|i: int| 0 <= i < files.len() ==> has_id(state.vaults@, (#[trigger] files[i]).vault_id)
}

fn no_vault_error() -> (e: AppError)
    ensures
        e@ == no_vault(),
{
    AppError::NotFound(String::from_str(NO_VAULT))
}

/// Writes one file at time `now`: the record of its path is rewritten, or a
/// new record is added. Returns the record as stored.
pub fn add_file_at(state: &mut ServerState, file: File, now: i64) -> (r: Result<File, AppError>)
    ensures
        if !has_id(old(state).vaults@, file.vault_id) {
            &&& r is Err
            &&& r->Err_0@ == no_vault()
            &&& final(state).files.state() == old(state).files.state()
        } else {
            match write_state(old(state).files.state(), write_of(file@), now) {
                Some(after) => {
                    &&& r is Ok
                    &&& r->Ok_0@ == upserted(
                        old(state).files@,
                        old(state).files.next_id(),
                        file.vault_id,
                        file.path@,
                        file.content@,
                        now,
                    )
                    &&& final(state).files.state() == after
                },
                None => {
                    &&& r is Err
                    &&& r->Err_0@ is Persistence
                    &&& final(state).files.state() == old(state).files.state()
                },
            }
        },
        r is Ok ==> stamped_later(old(state).files@, file.vault_id, file.path@, r->Ok_0@),
        r is Ok ==> stored(final(state).files@, file.vault_id, file.path@) && record_at(
            final(state).files@,
            file.vault_id,
            file.path@,
        ) == r->Ok_0@,
        final(state).same_sessions(old(state)),
        final(state).same_settings(old(state)),
        final(state).vaults@ == old(state).vaults@,
        final(state).vaults.next_id() == old(state).vaults.next_id(),
{
    if !state.vaults.contains_id(file.vault_id) {
        return Err(no_vault_error());
    }
    state.files.upsert_at(file.vault_id, file.path, file.content, now)
}

/// Writes one file at the current time. A rewrite is stamped above the
/// record's earlier stamp, however soon it follows.
pub fn add_file(state: &mut ServerState, file: File) -> (r: Result<File, AppError>)
    ensures
        match r {
            Ok(f) => {
                &&& has_id(old(state).vaults@, file.vault_id)
                &&& f@ == upserted(
                    old(state).files@,
                    old(state).files.next_id(),
                    file.vault_id,
                    file.path@,
                    file.content@,
                    f.last_sync,
                )
                &&& write_state(old(state).files.state(), write_of(file@), f.last_sync) == Some(
                    final(state).files.state(),
                )
            },
            Err(e) => {
                &&& final(state).files.state() == old(state).files.state()
                &&& if has_id(old(state).vaults@, file.vault_id) {
                    e@ is Persistence && !upsert_possible(
                        old(state).files@,
                        old(state).files.next_id(),
                        file.vault_id,
                        file.path@,
                    )
                } else {
                    e@ == no_vault()
                }
            },
        },
        r is Ok ==> stamped_later(old(state).files@, file.vault_id, file.path@, r->Ok_0@),
        r is Ok ==> stored(final(state).files@, file.vault_id, file.path@) && record_at(
            final(state).files@,
            file.vault_id,
            file.path@,
        ) == r->Ok_0@,
        final(state).same_sessions(old(state)),
        final(state).same_settings(old(state)),
        final(state).vaults@ == old(state).vaults@,
        final(state).vaults.next_id() == old(state).vaults.next_id(),
{
    let now = now_millis();
    add_file_at(state, file, now)
}

/// Writes several files at time `now` as one transaction: every file is
/// written, in the order given, or, where one of them names an unknown
/// vault or cannot be stored, none is. Returns the records at the paths of
/// the files, as stored after the batch.
pub fn add_files_at(state: &mut ServerState, files: &Vec<File>, now: i64) -> (r: Result<
    Vec<File>,
    AppError,
>)
    ensures
        if !vaults_known(old(state), files@) {
            &&& r is Err
            &&& r->Err_0@ == no_vault()
            &&& final(state).files.state() == old(state).files.state()
        } else {
            match batch_state(old(state).files.state(), writes_of(files@), now) {
                Some(after) => {
                    &&& r is Ok
                    &&& final(state).files.state() == after
                    &&& views(r->Ok_0@) == written_records(after.rows, writes_of(files@))
                },
                None => {
                    &&& r is Err
                    &&& r->Err_0@ is Persistence
                    &&& final(state).files.state() == old(state).files.state()
                },
            }
        },
        final(state).same_sessions(old(state)),
        final(state).same_settings(old(state)),
        final(state).vaults@ == old(state).vaults@,
        final(state).vaults.next_id() == old(state).vaults.next_id(),
{
    let mut writes: Vec<FileWrite> = Vec::new();
    let mut i: usize = 0;
    while i < files.len()
        invariant
            i <= files.len(),
            writes.len() == i,
            *state == *old(state),
            forall|j: int| 0 <= j < i ==> has_id(state.vaults@, (#[trigger] files[j]).vault_id),
            forall|j: int| 0 <= j < i ==> (#[trigger] writes[j])@ == write_of(files[j]@),
        decreases files.len() - i,
    {
        let f = &files[i];
        if !state.vaults.contains_id(f.vault_id) {
            return Err(no_vault_error());
        }
        writes.push(
            FileWrite { vault_id: f.vault_id, path: f.path.clone(), content: f.content.clone() },
        );
        i = i + 1;
    }
    assert(write_views(writes@) =~= writes_of(files@));
    state.files.upsert_batch_at(&writes, now)
}

/// Writes several files as one transaction at the current time. Returns
/// that time and the records at the paths of the files, as stored.
pub fn add_files(state: &mut ServerState, files: &Vec<File>) -> (r: Result<
    (i64, Vec<File>),
    AppError,
>)
    ensures
        match r {
            Ok(done) => vaults_known(old(state), files@) && batch_state(
                old(state).files.state(),
                writes_of(files@),
                done.0,
            ) == Some(final(state).files.state()) && views(done.1@) == written_records(
                final(state).files@,
                writes_of(files@),
            ),
            Err(e) => {
                &&& final(state).files.state() == old(state).files.state()
                &&& if vaults_known(old(state), files@) {
                    e@ is Persistence && exists|now: i64| #[trigger]
                        batch_state(old(state).files.state(), writes_of(files@), now) is None
                } else {
                    e@ == no_vault()
                }
            },
        },
        final(state).same_sessions(old(state)),
        final(state).same_settings(old(state)),
        final(state).vaults@ == old(state).vaults@,
        final(state).vaults.next_id() == old(state).vaults.next_id(),
{
    let now = now_millis();
    match add_files_at(state, files, now) {
        Ok(records) => Ok((now, records)),
        Err(e) => {
            proof {
                if vaults_known(old(state), files@) {
                    assert(batch_state(old(state).files.state(), writes_of(files@), now) is None);
                }
            }
            Err(e)
        },
    }
}

/// The record that an update leaves, if it updated one.
pub open spec fn updated(
    rows: Seq<FileView>,
    vault_id: i32,
    path: Seq<char>,
    new_path: Seq<char>,
    content: Seq<char>,
    now: i64,
) -> Option<FileView> {
    if stored(rows, vault_id, path) {
        Some(moved(record_at(rows, vault_id, path), new_path, content, now))
    } else {
        None
    }
}

/// Explicitly updates the file at `request.path` at time `now`: the record
/// is moved to `request.file.path` and rewritten with `request.file.content`.
/// Where there is no record at `request.path`, nothing is written and the
/// answer is still `200`. Returns the status and the record as it now
/// stands, if one was updated.
pub fn update_file_at(state: &mut ServerState, request: FileUpdateRequest, now: i64) -> (r:
    Result<(u16, Option<File>), AppError>)
    ensures
        if !has_id(old(state).vaults@, request.file.vault_id) {
            &&& r is Err
            &&& r->Err_0@ == no_vault()
            &&& final(state).files@ == old(state).files@
        } else {
            &&& final(state).files@ == update_rows(
                old(state).files@,
                request.file.vault_id,
                request.path@,
                request.file.path@,
                request.file.content@,
                now,
            )
            &&& if update_refused(
                old(state).files@,
                request.file.vault_id,
                request.path@,
                request.file.path@,
            ) {
                r is Err && r->Err_0@ is Persistence
            } else {
                &&& r is Ok
                &&& r->Ok_0.0 == OK
                &&& view_of(r->Ok_0.1) == updated(
                    old(state).files@,
                    request.file.vault_id,
                    request.path@,
                    request.file.path@,
                    request.file.content@,
                    now,
                )
            }
        },
        final(state).files.next_id() == old(state).files.next_id(),
        final(state).same_sessions(old(state)),
        final(state).same_settings(old(state)),
        final(state).vaults@ == old(state).vaults@,
        final(state).vaults.next_id() == old(state).vaults.next_id(),
{
    if !state.vaults.contains_id(request.file.vault_id) {
        return Err(no_vault_error());
    }
    match state.files.update_at(
        request.file.vault_id,
        request.path.as_str(),
        request.file.path,
        request.file.content,
        now,
    ) {
        Ok(written) => Ok((OK, written)),
        Err(e) => Err(e),
    }
}

/// Explicitly updates the file at `request.path` at the current time.
/// Returns the status and the record as it now stands, if one was updated.
pub fn update_file(state: &mut ServerState, request: FileUpdateRequest) -> (r: Result<
    (u16, Option<File>),
    AppError,
>)
    ensures
        match r {
            Ok(done) => {
                &&& done.0 == OK
                &&& has_id(old(state).vaults@, request.file.vault_id)
                &&& !update_refused(
                    old(state).files@,
                    request.file.vault_id,
                    request.path@,
                    request.file.path@,
                )
                &&& exists|now: i64|
                    final(state).files@ == #[trigger] update_rows(
                        old(state).files@,
                        request.file.vault_id,
                        request.path@,
                        request.file.path@,
                        request.file.content@,
                        now,
                    ) && view_of(done.1) == updated(
                        old(state).files@,
                        request.file.vault_id,
                        request.path@,
                        request.file.path@,
                        request.file.content@,
                        now,
                    )
            },
            Err(e) => {
                &&& final(state).files@ == old(state).files@
                &&& if has_id(old(state).vaults@, request.file.vault_id) {
                    e@ is Persistence && update_refused(
                        old(state).files@,
                        request.file.vault_id,
                        request.path@,
                        request.file.path@,
                    )
                } else {
                    e@ == no_vault()
                }
            },
        },
        final(state).files.next_id() == old(state).files.next_id(),
        final(state).same_sessions(old(state)),
        final(state).same_settings(old(state)),
        final(state).vaults@ == old(state).vaults@,
        final(state).vaults.next_id() == old(state).vaults.next_id(),
{
    let now = now_millis();
    update_file_at(state, request, now)
}

/// Takes the answer of the durable store to the writes that a request made
/// to the file table. Where the store took them, the table stays as the
/// request left it. Where it refused, the request is undone: the table goes
/// back to `kept`, the copy taken before the request, and the refusal is
/// reported.
pub fn settle_files(state: &mut ServerState, kept: FileStore, stored: Result<(), String>) -> (r:
    Result<(), AppError>)
    ensures
        match stored {
            Ok(()) => r is Ok && final(state).files.state() == old(state).files.state(),
            Err(m) => r is Err && r->Err_0@ == AppErrorView::Persistence(m@) && final(state).files.state() == kept.state(),
        },
        final(state).same_sessions(old(state)),
        final(state).same_settings(old(state)),
        final(state).vaults@ == old(state).vaults@,
        final(state).vaults.next_id() == old(state).vaults.next_id(),
{
    match stored {
        Ok(()) => Ok(()),
        Err(m) => {
            state.files = kept;
            Err(AppError::Persistence(m))
        },
    }
}

/// Lists the files of vault `query.vault_id` that were written strictly
/// after `query.last_sync`, which is the latest stamp the client has seen:
/// every such record, no other, each as stored. The list may be empty, and
/// is empty for a vault that holds no file; a listing never fails.
pub fn get_unsynced(state: &ServerState, query: LastSync) -> (r: Result<Files, AppError>)
    ensures
        r is Ok,
        views(r->Ok_0.files@) == changed_since(state.files@, query.vault_id, query.last_sync),
        r->Ok_0.files@.len() <= state.files@.len(),
        forall|f: FileView| #[trigger]
            views(r->Ok_0.files@).contains(f) <==> state.files@.contains(f) && is_changed(
                f,
                query.vault_id,
                query.last_sync,
            ),
{
    Ok(Files { files: state.files.list_changed_since(query.vault_id, query.last_sync) })
}

} // verus!
