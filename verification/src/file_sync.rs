//! The file sync engine: upsert by path and list by watermark.
//!
//! A vault holds at most one record for a path. A write replaces the
//! content, recomputes the fingerprint and stamps the record with the time
//! of the write, or, where the clock has not moved past the record's
//! earlier stamp, with the next stamp after that: the stamps of a record
//! rise with every write. A client asks for the records stamped after the
//! latest stamp it has seen.

use crate::clock::now_millis;
use crate::digest::{digest, digest_of};
use crate::models::file::{File, FileView};
use crate::routes::AppError;
use crate::text::same_text;
use crate::vault_store::next_after;
use vstd::prelude::*;

verus! {

/// Whether `r` is the record of `path` in vault `vault_id`.
pub open spec fn is_at(r: FileView, vault_id: i32, path: Seq<char>) -> bool {
    r.vault_id == vault_id && r.path == path
}

/// Whether `rows` holds a record of `path` in vault `vault_id`.
pub open spec fn stored(rows: Seq<FileView>, vault_id: i32, path: Seq<char>) -> bool {
    exists|i: int| 0 <= i < rows.len() && is_at(#[trigger] rows[i], vault_id, path)
}

/// The place of the record of `path` in vault `vault_id`.
pub open spec fn index_of(rows: Seq<FileView>, vault_id: i32, path: Seq<char>) -> int {
    choose|i: int| 0 <= i < rows.len() && is_at(#[trigger] rows[i], vault_id, path)
}

/// No two records share vault and path.
pub open spec fn keys_unique(rows: Seq<FileView>) -> bool {
    forall|i: int, j: int|
        0 <= i < j < rows.len() ==> !is_at(#[trigger] rows[i], (#[trigger] rows[j]).vault_id, rows[j].path)
}

/// Every record has an identifier, below `next_id`, and no two share one.
pub open spec fn ids_assigned(rows: Seq<FileView>, next_id: i32) -> bool {
    &&& forall|i: int|
        0 <= i < rows.len() ==> (#[trigger] rows[i]).id is Some && 1 <= rows[i].id->0 < next_id
    &&& forall|i: int, j: int|
        0 <= i < j < rows.len() ==> (#[trigger] rows[i]).id != (#[trigger] rows[j]).id
}

/// Every record's fingerprint is that of its content.
pub open spec fn hashes_consistent(rows: Seq<FileView>) -> bool {
    forall|i: int| 0 <= i < rows.len() ==> (#[trigger] rows[i]).hash == digest_of(rows[i].content)
}

/// How many records of `rows` are at `path` in vault `vault_id`.
pub open spec fn count_at(rows: Seq<FileView>, vault_id: i32, path: Seq<char>) -> nat
    decreases rows.len(),
{
    if rows.len() == 0 {
        0
    } else {
        count_at(rows.drop_last(), vault_id, path) + if is_at(rows.last(), vault_id, path) {
            1nat
        } else {
            0nat
        }
    }
}

/// Whether a record of `rows` has the identifier `id`.
pub open spec fn holds_id(rows: Seq<FileView>, id: i32) -> bool {
    exists|i: int| 0 <= i < rows.len() && (#[trigger] rows[i]).id == Some(id)
}

/// Whether a record that was stored under `id` at `path` in vault
/// `vault_id` can be put back into `rows`: the identifier is one that a
/// write can have handed out, and neither it nor the path is in the table.
pub open spec fn restorable(rows: Seq<FileView>, id: i32, vault_id: i32, path: Seq<char>) -> bool {
    1 <= id < i32::MAX && !holds_id(rows, id) && !stored(rows, vault_id, path)
}

/// The stamp of a write at time `now` to a record last stamped `earlier`:
/// the time of the write, or, where the clock has not moved past the earlier
/// stamp, the next stamp after it. Either way it is above the earlier one.
pub open spec fn stamp_after(earlier: i64, now: i64) -> i64 {
    if now > earlier {
        now
    } else {
        (earlier + 1) as i64
    }
}

/// Whether a record can be stamped again: a stamp above its own is left.
pub open spec fn restampable(r: FileView) -> bool {
    r.last_sync < i64::MAX
}

/// The record of `path` in vault `vault_id`.
pub open spec fn record_at(rows: Seq<FileView>, vault_id: i32, path: Seq<char>) -> FileView {
    rows[index_of(rows, vault_id, path)]
}

/// Whether the record `written` is stamped above the record that `rows`
/// holds at `path` in vault `vault_id`, if it holds one, and has that
/// record's identifier.
pub open spec fn stamped_later(
    rows: Seq<FileView>,
    vault_id: i32,
    path: Seq<char>,
    written: FileView,
) -> bool {
    stored(rows, vault_id, path) ==> written.last_sync > record_at(rows, vault_id, path).last_sync
        && written.id == record_at(rows, vault_id, path).id
}

/// A record after a write of `content` at `now`.
pub open spec fn rewritten(r: FileView, content: Seq<char>, now: i64) -> FileView {
    FileView {
        content,
        hash: digest_of(content),
        last_sync: stamp_after(r.last_sync, now),
        ..r
    }
}

/// The record that a first write creates.
pub open spec fn created(
    id: i32,
    vault_id: i32,
    path: Seq<char>,
    content: Seq<char>,
    now: i64,
) -> FileView {
    FileView {
        id: Some(id),
        vault_id,
        path,
        content,
        hash: digest_of(content),
        last_sync: now,
    }
}

/// The record that an upsert leaves at `path` in vault `vault_id`.
pub open spec fn upserted(
    rows: Seq<FileView>,
    next_id: i32,
    vault_id: i32,
    path: Seq<char>,
    content: Seq<char>,
    now: i64,
) -> FileView {
    if stored(rows, vault_id, path) {
        rewritten(rows[index_of(rows, vault_id, path)], content, now)
    } else {
        created(next_id, vault_id, path, content, now)
    }
}

/// The table after an upsert: the record of the path is rewritten in place,
/// or a new record is added at the end.
pub open spec fn upsert_rows(
    rows: Seq<FileView>,
    next_id: i32,
    vault_id: i32,
    path: Seq<char>,
    content: Seq<char>,
    now: i64,
) -> Seq<FileView> {
    if stored(rows, vault_id, path) {
        rows.update(
            index_of(rows, vault_id, path),
            upserted(rows, next_id, vault_id, path, content, now),
        )
    } else {
        rows.push(upserted(rows, next_id, vault_id, path, content, now))
    }
}

/// The next identifier after an upsert.
pub open spec fn upsert_next_id(
    rows: Seq<FileView>,
    next_id: i32,
    vault_id: i32,
    path: Seq<char>,
) -> i32 {
    if stored(rows, vault_id, path) {
        next_id
    } else {
        (next_id + 1) as i32
    }
}

/// Whether an upsert can be carried out: it rewrites a record that can be
/// stamped again, or an identifier is left for a new one.
pub open spec fn upsert_possible(
    rows: Seq<FileView>,
    next_id: i32,
    vault_id: i32,
    path: Seq<char>,
) -> bool {
    if stored(rows, vault_id, path) {
        restampable(rows[index_of(rows, vault_id, path)])
    } else {
        next_id < i32::MAX
    }
}

/// Whether a client whose watermark is `watermark` has yet to see `r`: the
/// record belongs to the vault and was written strictly after the watermark.
pub open spec fn is_changed(r: FileView, vault_id: i32, watermark: i64) -> bool {
    r.vault_id == vault_id && r.last_sync > watermark
}

/// The records of vault `vault_id` written after `watermark`, in table order.
pub open spec fn changed_since(rows: Seq<FileView>, vault_id: i32, watermark: i64) -> Seq<
    FileView,
> {
    rows.filter(|r: FileView| is_changed(r, vault_id, watermark))
}

/// The views of a list of records.
pub open spec fn views(files: Seq<File>) -> Seq<FileView> {
    files.map_values(|f: File| f@)
}

/// One write of a batch.
#[derive(Debug)]
pub struct FileWrite {
    pub vault_id: i32,
    pub path: String,
    pub content: String,
}

/// The mathematical value of a [`FileWrite`].
pub struct FileWriteView {
    pub vault_id: i32,
    pub path: Seq<char>,
    pub content: Seq<char>,
}

impl View for FileWrite {
    type V = FileWriteView;

    open spec fn view(&self) -> FileWriteView {
        FileWriteView { vault_id: self.vault_id, path: self.path@, content: self.content@ }
    }
}

/// A table and its next identifier.
pub struct TableState {
    pub rows: Seq<FileView>,
    pub next_id: i32,
}

/// The state after one write, or `None` where the write cannot be carried
/// out.
pub open spec fn write_state(s: TableState, w: FileWriteView, now: i64) -> Option<TableState> {
    if upsert_possible(s.rows, s.next_id, w.vault_id, w.path) {
        Some(
            TableState {
                rows: upsert_rows(s.rows, s.next_id, w.vault_id, w.path, w.content, now),
                next_id: upsert_next_id(s.rows, s.next_id, w.vault_id, w.path),
            },
        )
    } else {
        None
    }
}

/// The state after the writes of a batch, applied in order at time `now`,
/// or `None` where one of them cannot be carried out.
pub open spec fn batch_state(s: TableState, writes: Seq<FileWriteView>, now: i64) -> Option<
    TableState,
>
    decreases writes.len(),
{
    if writes.len() == 0 {
        Some(s)
    } else {
        match batch_state(s, writes.drop_last(), now) {
            Some(mid) => write_state(mid, writes.last(), now),
            None => None,
        }
    }
}

/// The records at the paths of `writes`, one for each write, in the order
/// of the writes.
pub open spec fn written_records(rows: Seq<FileView>, writes: Seq<FileWriteView>) -> Seq<
    FileView,
> {
    Seq::new(writes.len(), |i: int| record_at(rows, writes[i].vault_id, writes[i].path))
}

/// The views of a list of writes.
pub open spec fn write_views(writes: Seq<FileWrite>) -> Seq<FileWriteView> {
    writes.map_values(|w: FileWrite| w@)
}

/// What the table requires of its rows: vault and path are a unique key,
/// identifiers are assigned and unique, and every fingerprint is that of
/// the content beside it.
pub open spec fn well_formed(rows: Seq<FileView>, next_id: i32) -> bool {
    &&& 1 <= next_id
    &&& keys_unique(rows)
    &&& ids_assigned(rows, next_id)
    &&& hashes_consistent(rows)
}

/// A record after an explicit update: moved to `new_path` and rewritten.
pub open spec fn moved(r: FileView, new_path: Seq<char>, content: Seq<char>, now: i64) -> FileView {
    FileView { path: new_path, ..rewritten(r, content, now) }
}

/// Whether an explicit update would put a second record at `new_path`.
pub open spec fn update_conflict(
    rows: Seq<FileView>,
    vault_id: i32,
    path: Seq<char>,
    new_path: Seq<char>,
) -> bool {
    stored(rows, vault_id, path) && new_path != path && stored(rows, vault_id, new_path)
}

/// Whether an explicit update of the record at `path` is refused: another
/// record is at `new_path`, or the record cannot be stamped again.
pub open spec fn update_refused(
    rows: Seq<FileView>,
    vault_id: i32,
    path: Seq<char>,
    new_path: Seq<char>,
) -> bool {
    update_conflict(rows, vault_id, path, new_path) || (stored(rows, vault_id, path)
        && !restampable(rows[index_of(rows, vault_id, path)]))
}

/// The table after an explicit update of the record at `path`: the record
/// is moved and rewritten in place; where there is no such record, or the
/// update is refused, nothing changes.
pub open spec fn update_rows(
    rows: Seq<FileView>,
    vault_id: i32,
    path: Seq<char>,
    new_path: Seq<char>,
    content: Seq<char>,
    now: i64,
) -> Seq<FileView> {
    if stored(rows, vault_id, path) && !update_refused(rows, vault_id, path, new_path) {
        rows.update(
            index_of(rows, vault_id, path),
            moved(rows[index_of(rows, vault_id, path)], new_path, content, now),
        )
    } else {
        rows
    }
}

/// The file table.
pub struct FileStore {
    rows: Vec<File>,
    next: i32,
}

impl View for FileStore {
    type V = Seq<FileView>;

    closed spec fn view(&self) -> Seq<FileView> {
        views(self.rows@)
    }
}

proof fn lemma_index(rows: Seq<FileView>, i: int)
    requires
        keys_unique(rows),
        0 <= i < rows.len(),
    ensures
        stored(rows, rows[i].vault_id, rows[i].path),
        index_of(rows, rows[i].vault_id, rows[i].path) == i,
{
    assert(is_at(rows[i], rows[i].vault_id, rows[i].path));
    let j = index_of(rows, rows[i].vault_id, rows[i].path);
    if j < i {
        assert(!is_at(rows[j], rows[i].vault_id, rows[i].path));
    }
    if i < j {
        assert(!is_at(rows[i], rows[j].vault_id, rows[j].path));
    }
}

proof fn lemma_upsert_keeps_ok(
    rows: Seq<FileView>,
    next: i32,
    vault_id: i32,
    path: Seq<char>,
    content: Seq<char>,
    now: i64,
)
    requires
        well_formed(rows, next),
        upsert_possible(rows, next, vault_id, path),
    ensures
        well_formed(
            upsert_rows(rows, next, vault_id, path, content, now),
            upsert_next_id(rows, next, vault_id, path),
        ),
{
    let after = upsert_rows(rows, next, vault_id, path, content, now);
    if stored(rows, vault_id, path) {
        let k = index_of(rows, vault_id, path);
        assert forall|i: int, j: int| 0 <= i < j < after.len() implies !is_at(
            #[trigger] after[i],
            (#[trigger] after[j]).vault_id,
            after[j].path,
        ) by {
            assert(!is_at(rows[i], rows[j].vault_id, rows[j].path));
        }
        assert forall|i: int, j: int| 0 <= i < j < after.len() implies (#[trigger] after[i]).id
            != (#[trigger] after[j]).id by {
            assert(rows[i].id != rows[j].id);
        }
        assert forall|i: int| 0 <= i < after.len() implies (#[trigger] after[i]).id is Some && 1
            <= after[i].id->0 < next by {
            assert(rows[i].id is Some);
        }
        assert forall|i: int| 0 <= i < after.len() implies (#[trigger] after[i]).hash
            == digest_of(after[i].content) by {
            assert(rows[i].hash == digest_of(rows[i].content));
        }
    } else {
        assert forall|i: int, j: int| 0 <= i < j < after.len() implies !is_at(
            #[trigger] after[i],
            (#[trigger] after[j]).vault_id,
            after[j].path,
        ) by {
            if j < rows.len() {
                assert(!is_at(rows[i], rows[j].vault_id, rows[j].path));
            } else {
                assert(after[i] == rows[i]);
            }
        }
        assert forall|i: int, j: int| 0 <= i < j < after.len() implies (#[trigger] after[i]).id
            != (#[trigger] after[j]).id by {
            if j < rows.len() {
                assert(rows[i].id != rows[j].id);
            } else {
                assert(after[i] == rows[i]);
            }
        }
        assert forall|i: int| 0 <= i < after.len() implies (#[trigger] after[i]).id is Some && 1
            <= after[i].id->0 < next + 1 by {
            if i < rows.len() {
                assert(after[i] == rows[i]);
            }
        }
        assert forall|i: int| 0 <= i < after.len() implies (#[trigger] after[i]).hash
            == digest_of(after[i].content) by {
            if i < rows.len() {
                assert(after[i] == rows[i]);
            }
        }
    }
}

fn position_in(rows: &Vec<File>, vault_id: i32, path: &str) -> (r: Option<usize>)
    ensures
        match r {
            Some(i) => i < rows.len() && is_at(views(rows@)[i as int], vault_id, path@),
            None => !stored(views(rows@), vault_id, path@),
        },
{
    let mut i: usize = 0;
    while i < rows.len()
        invariant
            i <= rows.len(),
            views(rows@).len() == rows.len(),
            forall|j: int| 0 <= j < i ==> !is_at(#[trigger] views(rows@)[j], vault_id, path@),
        decreases rows.len() - i,
    {
        if rows[i].vault_id == vault_id && same_text(rows[i].path.as_str(), path) {
            return Some(i);
        }
        i = i + 1;
    }
    None
}

/// One upsert on a table held as a vector.
fn upsert_in(
    rows: &mut Vec<File>,
    next: &mut i32,
    vault_id: i32,
    path: String,
    content: String,
    now: i64,
) -> (done: bool)
    requires
        well_formed(views(old(rows)@), *old(next)),
    ensures
        done == upsert_possible(views(old(rows)@), *old(next), vault_id, path@),
        done ==> views(final(rows)@) == upsert_rows(
            views(old(rows)@),
            *old(next),
            vault_id,
            path@,
            content@,
            now,
        ) && *final(next) == upsert_next_id(views(old(rows)@), *old(next), vault_id, path@),
        !done ==> final(rows)@ == old(rows)@ && *final(next) == *old(next),
        well_formed(views(final(rows)@), *final(next)),
{
    let ghost before = views(rows@);
    let hash = digest(content.as_str());
    match position_in(rows, vault_id, path.as_str()) {
        Some(i) => {
            proof {
                lemma_index(before, i as int);
            }
            let earlier: i64 = rows[i].last_sync;
            if earlier == i64::MAX {
                return false;
            }
            proof {
                lemma_upsert_keeps_ok(before, *next, vault_id, path@, content@, now);
            }
            let stamp: i64 = if now > earlier {
                now
            } else {
                earlier + 1
            };
            let id = rows[i].id;
            let row = File { id, vault_id, path, content, hash, last_sync: stamp };
            rows.set(i, row);
            assert(views(rows@) =~= before.update(i as int, row@));
            true
        },
        None => {
            if *next == i32::MAX {
                return false;
            }
            proof {
                lemma_upsert_keeps_ok(before, *next, vault_id, path@, content@, now);
            }
            let row = File { id: Some(*next), vault_id, path, content, hash, last_sync: now };
            rows.push(row);
            *next = *next + 1;
            assert(views(rows@) =~= before.push(row@));
            true
        },
    }
}

fn has_id_in(rows: &Vec<File>, id: i32) -> (found: bool)
    ensures
        found == holds_id(views(rows@), id),
{
    let mut i: usize = 0;
    while i < rows.len()
        invariant
            i <= rows.len(),
            views(rows@).len() == rows.len(),
            forall|j: int| 0 <= j < i ==> (#[trigger] views(rows@)[j]).id != Some(id),
        decreases rows.len() - i,
    {
        match rows[i].id {
            Some(k) => {
                if k == id {
                    assert(views(rows@)[i as int].id == Some(id));
                    return true;
                }
            },
            None => {},
        }
        i = i + 1;
    }
    false
}

/// An upsert leaves a record at its path.
proof fn lemma_upsert_stores(
    rows: Seq<FileView>,
    next: i32,
    vault_id: i32,
    path: Seq<char>,
    content: Seq<char>,
    now: i64,
)
    ensures
        stored(upsert_rows(rows, next, vault_id, path, content, now), vault_id, path),
{
    let after = upsert_rows(rows, next, vault_id, path, content, now);
    if stored(rows, vault_id, path) {
        assert(is_at(after[index_of(rows, vault_id, path)], vault_id, path));
    } else {
        assert(is_at(after[rows.len() as int], vault_id, path));
    }
}

/// An upsert removes no record: a path that held one holds one after it.
proof fn lemma_upsert_keeps_stored(
    rows: Seq<FileView>,
    next: i32,
    vault_id: i32,
    path: Seq<char>,
    content: Seq<char>,
    now: i64,
    other_vault: i32,
    other: Seq<char>,
)
    requires
        stored(rows, other_vault, other),
    ensures
        stored(upsert_rows(rows, next, vault_id, path, content, now), other_vault, other),
{
    let after = upsert_rows(rows, next, vault_id, path, content, now);
    let k = index_of(rows, other_vault, other);
    assert(is_at(rows[k], other_vault, other));
    assert(is_at(after[k], other_vault, other));
}

/// After a batch every path that it wrote holds a record.
proof fn lemma_batch_stores_all(s: TableState, writes: Seq<FileWriteView>, now: i64, i: int)
    requires
        batch_state(s, writes, now) is Some,
        0 <= i < writes.len(),
    ensures
        stored(batch_state(s, writes, now)->0.rows, writes[i].vault_id, writes[i].path),
    decreases writes.len(),
{
    let front = writes.drop_last();
    let mid = batch_state(s, front, now)->0;
    let w = writes.last();
    if i == writes.len() - 1 {
        lemma_upsert_stores(mid.rows, mid.next_id, w.vault_id, w.path, w.content, now);
    } else {
        lemma_batch_stores_all(s, front, now, i);
        assert(front[i] == writes[i]);
        lemma_upsert_keeps_stored(
            mid.rows,
            mid.next_id,
            w.vault_id,
            w.path,
            w.content,
            now,
            writes[i].vault_id,
            writes[i].path,
        );
    }
}

/// Copies of the records at the paths of `writes`.
fn records_in(rows: &Vec<File>, writes: &Vec<FileWrite>) -> (records: Vec<File>)
    requires
        keys_unique(views(rows@)),
        forall|i: int|
            0 <= i < writes.len() ==> stored(
                views(rows@),
                (#[trigger] writes[i]).vault_id,
                writes[i].path@,
            ),
    ensures
        views(records@) == written_records(views(rows@), write_views(writes@)),
{
    let mut records: Vec<File> = Vec::new();
    let mut i: usize = 0;
    while i < writes.len()
        invariant
            i <= writes.len(),
            records.len() == i,
            keys_unique(views(rows@)),
            forall|j: int|
                0 <= j < writes.len() ==> stored(
                    views(rows@),
                    (#[trigger] writes[j]).vault_id,
                    writes[j].path@,
                ),
            forall|j: int|
                0 <= j < i ==> (#[trigger] records[j])@ == record_at(
                    views(rows@),
                    writes[j].vault_id,
                    writes[j].path@,
                ),
        decreases writes.len() - i,
    {
        let w = &writes[i];
        match position_in(rows, w.vault_id, w.path.as_str()) {
            Some(k) => {
                proof {
                    lemma_index(views(rows@), k as int);
                }
                records.push(rows[k].duplicate());
            },
            None => {
                assert(stored(views(rows@), writes[i as int].vault_id, writes[i as int].path@));
                unreached::<()>();
            },
        }
        i = i + 1;
    }
    assert(views(records@) =~= written_records(views(rows@), write_views(writes@)));
    records
}

fn duplicate_all(rows: &Vec<File>) -> (copy: Vec<File>)
    ensures
        views(copy@) == views(rows@),
{
    let mut copy: Vec<File> = Vec::new();
    let mut i: usize = 0;
    while i < rows.len()
        invariant
            i <= rows.len(),
            copy.len() == i,
            forall|j: int| 0 <= j < i ==> (#[trigger] copy[j])@ == rows[j]@,
        decreases rows.len() - i,
    {
        copy.push(rows[i].duplicate());
        i = i + 1;
    }
    assert(views(copy@) =~= views(rows@));
    copy
}

proof fn lemma_batch_stays_failed(s: TableState, writes: Seq<FileWriteView>, n: int, now: i64)
    requires
        0 <= n <= writes.len(),
        batch_state(s, writes.subrange(0, n), now) is None,
    ensures
        batch_state(s, writes, now) is None,
    decreases writes.len(),
{
    if n == writes.len() {
        assert(writes.subrange(0, n) =~= writes);
    } else {
        let front = writes.drop_last();
        assert(front.subrange(0, n) =~= writes.subrange(0, n));
        lemma_batch_stays_failed(s, front, n, now);
    }
}

/// A table without a record at a path counts none there, and the other way
/// round.
pub proof fn lemma_count_zero(rows: Seq<FileView>, vault_id: i32, path: Seq<char>)
    ensures
        count_at(rows, vault_id, path) == 0 <==> !stored(rows, vault_id, path),
    decreases rows.len(),
{
    if rows.len() > 0 {
        let front = rows.drop_last();
        lemma_count_zero(front, vault_id, path);
        if stored(front, vault_id, path) {
            let i = index_of(front, vault_id, path);
            assert(rows[i] == front[i]);
        }
        if is_at(rows.last(), vault_id, path) {
            assert(is_at(rows[rows.len() - 1], vault_id, path));
        }
        if stored(rows, vault_id, path) && !is_at(rows.last(), vault_id, path) {
            let i = index_of(rows, vault_id, path);
            assert(front[i] == rows[i]);
        }
    }
}

/// Where vault and path are a unique key, a path is counted at most once.
pub proof fn lemma_count_at_most_one(rows: Seq<FileView>, vault_id: i32, path: Seq<char>)
    requires
        keys_unique(rows),
    ensures
        count_at(rows, vault_id, path) <= 1,
        stored(rows, vault_id, path) ==> count_at(rows, vault_id, path) == 1,
    decreases rows.len(),
{
    if rows.len() > 0 {
        let front = rows.drop_last();
        assert forall|i: int, j: int| 0 <= i < j < front.len() implies !is_at(
            #[trigger] front[i],
            (#[trigger] front[j]).vault_id,
            front[j].path,
        ) by {
            assert(front[i] == rows[i] && front[j] == rows[j]);
        }
        lemma_count_at_most_one(front, vault_id, path);
        lemma_count_zero(front, vault_id, path);
        lemma_count_zero(rows, vault_id, path);
        if is_at(rows.last(), vault_id, path) && stored(front, vault_id, path) {
            let i = index_of(front, vault_id, path);
            assert(rows[i] == front[i]);
            assert(!is_at(rows[i], rows[rows.len() - 1].vault_id, rows[rows.len() - 1].path));
        }
    }
}

/// An upsert keeps the table well formed.
pub proof fn law_upsert_keeps_table_well_formed(
    rows: Seq<FileView>,
    next_id: i32,
    vault_id: i32,
    path: Seq<char>,
    content: Seq<char>,
    now: i64,
)
    requires
        well_formed(rows, next_id),
        upsert_possible(rows, next_id, vault_id, path),
    ensures
        well_formed(
            upsert_rows(rows, next_id, vault_id, path, content, now),
            upsert_next_id(rows, next_id, vault_id, path),
        ),
{
    lemma_upsert_keeps_ok(rows, next_id, vault_id, path, content, now);
}

/// Two writes to one path leave one record, and it is the second write's:
/// after an upsert of `first` at `t1` and an upsert of `second` at `t2`,
/// whatever the two times are, the table holds exactly one record for the
/// path, with the second content, the second content's fingerprint, and a
/// stamp strictly greater than the first write's. The second write adds no
/// record.
pub proof fn law_second_write_replaces_first(
    rows: Seq<FileView>,
    next_id: i32,
    vault_id: i32,
    path: Seq<char>,
    first: Seq<char>,
    second: Seq<char>,
    t1: i64,
    t2: i64,
)
    requires
        well_formed(rows, next_id),
        upsert_possible(rows, next_id, vault_id, path),
        upsert_possible(
            upsert_rows(rows, next_id, vault_id, path, first, t1),
            upsert_next_id(rows, next_id, vault_id, path),
            vault_id,
            path,
        ),
    ensures
        ({
            let one = upsert_rows(rows, next_id, vault_id, path, first, t1);
            let id1 = upsert_next_id(rows, next_id, vault_id, path);
            let two = upsert_rows(one, id1, vault_id, path, second, t2);
            let after_first = one[index_of(one, vault_id, path)];
            let after_second = two[index_of(two, vault_id, path)];
            &&& upsert_next_id(one, id1, vault_id, path) == id1
            &&& two.len() == one.len()
            &&& count_at(two, vault_id, path) == 1
            &&& is_at(after_second, vault_id, path)
            &&& after_second.content == second
            &&& after_second.hash == digest_of(second)
            &&& after_second.last_sync == stamp_after(after_first.last_sync, t2)
            &&& after_second.last_sync > after_first.last_sync
            &&& after_second.last_sync >= t2
            &&& after_first.last_sync >= t1
            &&& after_second.id == after_first.id
        }),
{
    let one = upsert_rows(rows, next_id, vault_id, path, first, t1);
    let id1 = upsert_next_id(rows, next_id, vault_id, path);
    lemma_upsert_keeps_ok(rows, next_id, vault_id, path, first, t1);
    let k = if stored(rows, vault_id, path) {
        index_of(rows, vault_id, path)
    } else {
        rows.len() as int
    };
    assert(is_at(one[k], vault_id, path));
    lemma_index(one, k);
    let two = upsert_rows(one, id1, vault_id, path, second, t2);
    lemma_upsert_keeps_ok(one, id1, vault_id, path, second, t2);
    assert(is_at(two[k], vault_id, path));
    lemma_index(two, k);
    lemma_count_at_most_one(two, vault_id, path);
}

/// A write never lowers a stamp: the record that an upsert leaves is
/// stamped above whatever record was at the path before, and no earlier
/// than the time of the write.
pub proof fn law_stamps_only_rise(
    rows: Seq<FileView>,
    next_id: i32,
    vault_id: i32,
    path: Seq<char>,
    content: Seq<char>,
    now: i64,
)
    requires
        upsert_possible(rows, next_id, vault_id, path),
    ensures
        upserted(rows, next_id, vault_id, path, content, now).last_sync >= now,
        stored(rows, vault_id, path) ==> upserted(
            rows,
            next_id,
            vault_id,
            path,
            content,
            now,
        ).last_sync > rows[index_of(rows, vault_id, path)].last_sync,
{
}

/// The watermark is an exclusive lower bound: a record of the vault is
/// listed for a watermark exactly where it was written strictly after it.
/// So a record written at `W` reaches every client whose watermark is below
/// `W`, and no client whose watermark is `W` or later.
pub proof fn law_watermark_is_exclusive(rows: Seq<FileView>, i: int, watermark: i64)
    requires
        0 <= i < rows.len(),
    ensures
        changed_since(rows, rows[i].vault_id, watermark).contains(rows[i]) <==> watermark
            < rows[i].last_sync,
{
    let pred = |r: FileView| is_changed(r, rows[i].vault_id, watermark);
    let listed = rows.filter(pred);
    if watermark < rows[i].last_sync {
        assert(pred(rows[i]));
        rows.lemma_filter_contains(pred, i);
    }
    if listed.contains(rows[i]) {
        let j = choose|j: int| 0 <= j < listed.len() && listed[j] == rows[i];
        rows.lemma_filter_pred(pred, j);
    }
}

/// Every listed record is a record of the table, of the vault asked for,
/// written after the watermark; and every such record of the table is
/// listed.
pub proof fn law_listing_is_exact(rows: Seq<FileView>, vault_id: i32, watermark: i64, r: FileView)
    ensures
        changed_since(rows, vault_id, watermark).contains(r) <==> rows.contains(r) && is_changed(
            r,
            vault_id,
            watermark,
        ),
{
    let pred = |r: FileView| is_changed(r, vault_id, watermark);
    let listed = rows.filter(pred);
    if listed.contains(r) {
        let j = choose|j: int| 0 <= j < listed.len() && listed[j] == r;
        rows.lemma_filter_pred(pred, j);
        rows.lemma_filter_contains_rev(pred, r);
    }
    if rows.contains(r) && is_changed(r, vault_id, watermark) {
        let i = choose|i: int| 0 <= i < rows.len() && rows[i] == r;
        assert(pred(rows[i]));
        rows.lemma_filter_contains(pred, i);
    }
}

/// A table can be read back row by row: each record of a table can be put
/// back onto the records before it, and that gives the table up to and
/// with that record, identifier, fingerprint and stamp as they were.
pub proof fn law_table_is_read_back(rows: Seq<FileView>, next_id: i32, i: int)
    requires
        well_formed(rows, next_id),
        0 <= i < rows.len(),
    ensures
        restorable(rows.take(i), rows[i].id->0, rows[i].vault_id, rows[i].path),
        rows.take(i).push(
            created(
                rows[i].id->0,
                rows[i].vault_id,
                rows[i].path,
                rows[i].content,
                rows[i].last_sync,
            ),
        ) == rows.take(i + 1),
{
    let front = rows.take(i);
    if holds_id(front, rows[i].id->0) {
        let j = choose|j: int| 0 <= j < front.len() && (#[trigger] front[j]).id == rows[i].id;
        assert(front[j] == rows[j]);
        assert(rows[j].id != rows[i].id);
    }
    if stored(front, rows[i].vault_id, rows[i].path) {
        let j = index_of(front, rows[i].vault_id, rows[i].path);
        assert(front[j] == rows[j]);
        assert(!is_at(rows[j], rows[i].vault_id, rows[i].path));
    }
    assert(rows[i].hash == digest_of(rows[i].content));
    assert(front.push(
        created(
            rows[i].id->0,
            rows[i].vault_id,
            rows[i].path,
            rows[i].content,
            rows[i].last_sync,
        ),
    ) =~= rows.take(i + 1));
}

impl FileStore {
    #[verifier::type_invariant]
    spec fn inv(&self) -> bool {
        well_formed(self@, self.next)
    }

    /// The identifier that the next new record gets.
    pub closed spec fn next_id(&self) -> i32 {
        self.next
    }

    /// The table and its next identifier.
    pub open spec fn state(&self) -> TableState {
        TableState { rows: self@, next_id: self.next_id() }
    }

    /// An empty table.
    pub fn new() -> (s: FileStore)
        ensures
            s@ == Seq::<FileView>::empty(),
            s.next_id() == 1,
    {
        let s = FileStore { rows: Vec::new(), next: 1 };
        assert(s@ =~= Seq::<FileView>::empty());
        s
    }

    /// The number of records.
    pub fn len(&self) -> (n: usize)
        ensures
            n == self@.len(),
    {
        self.rows.len()
    }

    /// A copy of the table, to go back to where a write has to be undone.
    pub fn duplicate(&self) -> (copy: FileStore)
        ensures
            copy.state() == self.state(),
    {
        proof {
            use_type_invariant(self);
        }
        FileStore { rows: duplicate_all(&self.rows), next: self.next }
    }

    /// Moves the rows out, leaving the table empty until they are put back.
    fn take_rows(&mut self) -> (rows: Vec<File>)
        ensures
            rows@ == old(self).rows@,
            final(self).rows@.len() == 0,
            final(self).next == old(self).next,
    {
        proof {
            use_type_invariant(&*self);
        }
        let mut rows: Vec<File> = Vec::new();
        proof {
            assert(views(rows@) =~= Seq::<FileView>::empty());
        }
        core::mem::swap(&mut self.rows, &mut rows);
        rows
    }

    /// The record of `path` in vault `vault_id`, if there is one.
    pub fn get(&self, vault_id: i32, path: &str) -> (r: Option<File>)
        ensures
            match r {
                Some(f) => stored(self@, vault_id, path@) && f@ == self@[index_of(
                    self@,
                    vault_id,
                    path@,
                )],
                None => !stored(self@, vault_id, path@),
            },
            well_formed(self@, self.next_id()),
    {
        proof {
            use_type_invariant(self);
        }
        match position_in(&self.rows, vault_id, path) {
            Some(i) => {
                proof {
                    lemma_index(self@, i as int);
                }
                Some(self.rows[i].duplicate())
            },
            None => None,
        }
    }

    /// Puts back a record that was stored under `id` with the stamp
    /// `last_sync`, with that identifier and that stamp: what was stored is
    /// read back as it was stored, whatever identifiers are missing in
    /// between. The fingerprint is computed from the content. Where the
    /// identifier or the path is in the table already, or the identifier is
    /// none that a write hands out, nothing is put back and the table stays
    /// as it was.
    pub fn restore(
        &mut self,
        id: i32,
        vault_id: i32,
        path: String,
        content: String,
        last_sync: i64,
    ) -> (restored: bool)
        ensures
            restored == restorable(old(self)@, id, vault_id, path@),
            final(self)@ == if restored {
                old(self)@.push(created(id, vault_id, path@, content@, last_sync))
            } else {
                old(self)@
            },
            final(self).next_id() == if restored {
                next_after(old(self).next_id(), id)
            } else {
                old(self).next_id()
            },
            well_formed(final(self)@, final(self).next_id()),
    {
        proof {
            use_type_invariant(&*self);
        }
        if id < 1 || id == i32::MAX || has_id_in(&self.rows, id) || position_in(
            &self.rows,
            vault_id,
            path.as_str(),
        ).is_some() {
            return false;
        }
        let next: i32 = if id < self.next {
            self.next
        } else {
            id + 1
        };
        let ghost before = self@;
        let hash = digest(content.as_str());
        let row = File { id: Some(id), vault_id, path, content, hash, last_sync };
        let mut rows = self.take_rows();
        rows.push(row);
        proof {
            let after = views(rows@);
            assert(after =~= before.push(row@));
            assert forall|i: int, j: int| 0 <= i < j < after.len() implies !is_at(
                #[trigger] after[i],
                (#[trigger] after[j]).vault_id,
                after[j].path,
            ) by {
                if j < before.len() {
                    assert(!is_at(before[i], before[j].vault_id, before[j].path));
                } else {
                    assert(after[i] == before[i]);
                }
            }
            assert forall|i: int, j: int| 0 <= i < j < after.len() implies (#[trigger] after[i]).id
                != (#[trigger] after[j]).id by {
                if j < before.len() {
                    assert(before[i].id != before[j].id);
                } else {
                    assert(after[i] == before[i]);
                }
            }
            assert forall|i: int| 0 <= i < after.len() implies (#[trigger] after[i]).id is Some
                && 1 <= after[i].id->0 < next by {
                if i < before.len() {
                    assert(after[i] == before[i]);
                }
            }
            assert forall|i: int| 0 <= i < after.len() implies (#[trigger] after[i]).hash
                == digest_of(after[i].content) by {
                if i < before.len() {
                    assert(after[i] == before[i]);
                }
            }
        }
        self.next = next;
        self.rows = rows;
        true
    }

    /// Writes `content` to `path` in vault `vault_id` at time `now`: the
    /// record of the path is rewritten in place, or a new record is added.
    /// The fingerprint is recomputed on every write. Returns the record as
    /// stored. A rewrite is stamped above the record's earlier stamp, however
    /// soon it follows. Fails, leaving the table as it was, only where a new
    /// record is needed and every identifier has been handed out, or the
    /// record's stamp is the last there is.
    pub fn upsert_at(&mut self, vault_id: i32, path: String, content: String, now: i64) -> (r:
        Result<File, AppError>)
        ensures
            r is Ok == upsert_possible(old(self)@, old(self).next_id(), vault_id, path@),
            r is Ok ==> stamped_later(old(self)@, vault_id, path@, r->Ok_0@),
            r is Ok ==> stored(final(self)@, vault_id, path@) && record_at(
                final(self)@,
                vault_id,
                path@,
            ) == r->Ok_0@,
            match r {
                Ok(f) => f@ == upserted(
                    old(self)@,
                    old(self).next_id(),
                    vault_id,
                    path@,
                    content@,
                    now,
                ) && final(self)@ == upsert_rows(
                    old(self)@,
                    old(self).next_id(),
                    vault_id,
                    path@,
                    content@,
                    now,
                ) && final(self).next_id() == upsert_next_id(
                    old(self)@,
                    old(self).next_id(),
                    vault_id,
                    path@,
                ),
                Err(e) => e@ is Persistence && final(self)@ == old(self)@ && final(self).next_id()
                    == old(self).next_id(),
            },
            well_formed(final(self)@, final(self).next_id()),
    {
        proof {
            use_type_invariant(&*self);
        }
        let ghost before = self@;
        let key = path.clone();
        let mut rows = self.take_rows();
        let mut next = self.next;
        let done = upsert_in(&mut rows, &mut next, vault_id, path, content, now);
        let found = position_in(&rows, vault_id, key.as_str());
        let r = match found {
            Some(i) => {
                if done {
                    proof {
                        lemma_index(views(rows@), i as int);
                        if stored(before, vault_id, key@) {
                            let k = index_of(before, vault_id, key@);
                            assert(is_at(views(rows@)[k], vault_id, key@));
                            lemma_index(views(rows@), k);
                        } else {
                            assert(is_at(views(rows@)[before.len() as int], vault_id, key@));
                            lemma_index(views(rows@), before.len() as int);
                        }
                    }
                    Ok(rows[i].duplicate())
                } else {
                    Err(AppError::Persistence("File table exhausted".to_string()))
                }
            },
            None => {
                proof {
                    if done {
                        if stored(before, vault_id, key@) {
                            let k = index_of(before, vault_id, key@);
                            assert(is_at(views(rows@)[k], vault_id, key@));
                        } else {
                            assert(is_at(views(rows@)[before.len() as int], vault_id, key@));
                        }
                    }
                }
                Err(AppError::Persistence("File table exhausted".to_string()))
            },
        };
        self.next = next;
        self.rows = rows;
        r
    }

    /// Writes `content` to `path` in vault `vault_id` at the current time.
    pub fn upsert(&mut self, vault_id: i32, path: String, content: String) -> (r: Result<
        File,
        AppError,
    >)
        ensures
            r is Ok == upsert_possible(old(self)@, old(self).next_id(), vault_id, path@),
            r is Ok ==> stamped_later(old(self)@, vault_id, path@, r->Ok_0@),
            r is Ok ==> stored(final(self)@, vault_id, path@) && record_at(
                final(self)@,
                vault_id,
                path@,
            ) == r->Ok_0@,
            match r {
                Ok(f) => f@ == upserted(
                    old(self)@,
                    old(self).next_id(),
                    vault_id,
                    path@,
                    content@,
                    f.last_sync,
                ) && final(self)@ == upsert_rows(
                    old(self)@,
                    old(self).next_id(),
                    vault_id,
                    path@,
                    content@,
                    f.last_sync,
                ) && final(self).next_id() == upsert_next_id(
                    old(self)@,
                    old(self).next_id(),
                    vault_id,
                    path@,
                ),
                Err(e) => e@ is Persistence && final(self)@ == old(self)@ && final(self).next_id()
                    == old(self).next_id(),
            },
            well_formed(final(self)@, final(self).next_id()),
    {
        let now = now_millis();
        self.upsert_at(vault_id, path, content, now)
    }

    /// The records of vault `vault_id` that were written strictly after
    /// `watermark`, in table order. A record written exactly at the
    /// watermark is not among them.
    pub fn list_changed_since(&self, vault_id: i32, watermark: i64) -> (files: Vec<File>)
        ensures
            views(files@) == changed_since(self@, vault_id, watermark),
            files@.len() <= self@.len(),
            forall|r: FileView| #[trigger]
                views(files@).contains(r) <==> self@.contains(r) && is_changed(
                    r,
                    vault_id,
                    watermark,
                ),
    {
        let mut files: Vec<File> = Vec::new();
        let ghost pred = |r: FileView| is_changed(r, vault_id, watermark);
        let mut i: usize = 0;
        proof {
            reveal(Seq::filter);
            assert(self@.subrange(0, 0) =~= Seq::<FileView>::empty());
            assert(views(files@) =~= Seq::<FileView>::empty());
        }
        while i < self.rows.len()
            invariant
                i <= self.rows.len(),
                self@.len() == self.rows.len(),
                pred == |r: FileView| is_changed(r, vault_id, watermark),
                views(files@) == self@.subrange(0, i as int).filter(pred),
                files@.len() <= i,
            decreases self.rows.len() - i,
        {
            let row = &self.rows[i];
            proof {
                reveal(Seq::filter);
                let upto = self@.subrange(0, i as int + 1);
                assert(upto.drop_last() =~= self@.subrange(0, i as int));
                assert(upto.last() == row@);
            }
            if row.vault_id == vault_id && row.last_sync > watermark {
                let copy = row.duplicate();
                let ghost prev = views(files@);
                files.push(copy);
                assert(views(files@) =~= prev.push(copy@));
            }
            i = i + 1;
        }
        assert(self@.subrange(0, i as int) =~= self@);
        proof {
            assert forall|r: FileView| #[trigger]
                views(files@).contains(r) <==> self@.contains(r) && is_changed(
                    r,
                    vault_id,
                    watermark,
                ) by {
                law_listing_is_exact(self@, vault_id, watermark, r);
            }
        }
        files
    }

    /// Applies the writes of a batch in order at time `now`, as one
    /// transaction: either every write is carried out, or, where one of them
    /// cannot be, the table stays exactly as it was. A record that the batch
    /// rewrites is stamped above its earlier stamp, also where that stamp
    /// comes from an earlier write of the same batch. Returns the records at
    /// the paths of the writes, as stored after the batch.
    pub fn upsert_batch_at(&mut self, writes: &Vec<FileWrite>, now: i64) -> (r: Result<
        Vec<File>,
        AppError,
    >)
        ensures
            match batch_state(old(self).state(), write_views(writes@), now) {
                Some(after) => r is Ok && final(self).state() == after && views(r->Ok_0@)
                    == written_records(after.rows, write_views(writes@)),
                None => r is Err && r->Err_0@ is Persistence && final(self).state() == old(self).state(),
            },
            well_formed(final(self)@, final(self).next_id()),
    {
        proof {
            use_type_invariant(&*self);
        }
        let ghost start = self.state();
        let ghost all = write_views(writes@);
        let orig = self.take_rows();
        let mut work = duplicate_all(&orig);
        let mut next: i32 = self.next;
        let mut i: usize = 0;
        proof {
            assert(all.subrange(0, 0) =~= Seq::<FileWriteView>::empty());
        }
        while i < writes.len()
            invariant
                i <= writes.len(),
                all == write_views(writes@),
                start == old(self).state(),
                self.rows@.len() == 0,
                self.next == start.next_id,
                views(orig@) == start.rows,
                well_formed(start.rows, start.next_id),
                well_formed(views(work@), next),
                batch_state(start, all.subrange(0, i as int), now) == Some(
                    TableState { rows: views(work@), next_id: next },
                ),
            decreases writes.len() - i,
        {
            let w = &writes[i];
            let ghost upto = all.subrange(0, i as int + 1);
            let ghost mid = TableState { rows: views(work@), next_id: next };
            proof {
                assert(upto.drop_last() =~= all.subrange(0, i as int));
                assert(upto.last() == w@);
                assert(batch_state(start, upto, now) == write_state(mid, w@, now));
            }
            let done = upsert_in(&mut work, &mut next, w.vault_id, w.path.clone(), w.content.clone(), now);
            if !done {
                proof {
                    lemma_batch_stays_failed(start, all, i as int + 1, now);
                }
                self.rows = orig;
                return Err(AppError::Persistence("File table exhausted".to_string()));
            }
            i = i + 1;
        }
        proof {
            assert(all.subrange(0, i as int) =~= all);
            assert forall|j: int| 0 <= j < writes.len() implies stored(
                views(work@),
                (#[trigger] writes[j]).vault_id,
                writes[j].path@,
            ) by {
                lemma_batch_stores_all(start, all, now, j);
            }
        }
        let records = records_in(&work, writes);
        self.next = next;
        self.rows = work;
        Ok(records)
    }

    /// Applies the writes of a batch as one transaction at the current
    /// time. Returns that time and the records at the paths of the writes,
    /// as stored.
    pub fn upsert_batch(&mut self, writes: &Vec<FileWrite>) -> (r: Result<
        (i64, Vec<File>),
        AppError,
    >)
        ensures
            match r {
                Ok(done) => batch_state(old(self).state(), write_views(writes@), done.0) == Some(
                    final(self).state(),
                ) && views(done.1@) == written_records(final(self)@, write_views(writes@)),
                Err(e) => e@ is Persistence && final(self).state() == old(self).state()
                    && exists|now: i64| #[trigger]
                    batch_state(old(self).state(), write_views(writes@), now) is None,
            },
            well_formed(final(self)@, final(self).next_id()),
    {
        let now = now_millis();
        match self.upsert_batch_at(writes, now) {
            Ok(records) => Ok((now, records)),
            Err(e) => {
                assert(batch_state(old(self).state(), write_views(writes@), now) is None);
                Err(e)
            },
        }
    }

    /// Explicitly updates the record at `path` in vault `vault_id`: moves it
    /// to `new_path` and rewrites it with `content` at time `now`. Where
    /// there is no record at `path`, nothing is updated and `None` is
    /// returned. Where another record is at `new_path`, the update is
    /// refused: vault and path are a unique key. It is refused too where the
    /// record's stamp is the last there is.
    pub fn update_at(
        &mut self,
        vault_id: i32,
        path: &str,
        new_path: String,
        content: String,
        now: i64,
    ) -> (r: Result<Option<File>, AppError>)
        ensures
            match r {
                Ok(Some(f)) => stored(old(self)@, vault_id, path@) && !update_refused(
                    old(self)@,
                    vault_id,
                    path@,
                    new_path@,
                ) && f@ == moved(
                    old(self)@[index_of(old(self)@, vault_id, path@)],
                    new_path@,
                    content@,
                    now,
                ),
                Ok(None) => !stored(old(self)@, vault_id, path@),
                Err(e) => update_refused(old(self)@, vault_id, path@, new_path@) && e@
                    is Persistence,
            },
            final(self)@ == update_rows(old(self)@, vault_id, path@, new_path@, content@, now),
            final(self).next_id() == old(self).next_id(),
            well_formed(final(self)@, final(self).next_id()),
    {
        proof {
            use_type_invariant(&*self);
        }
        let ghost before = self@;
        let i = match position_in(&self.rows, vault_id, path) {
            None => {
                return Ok(None);
            },
            Some(i) => i,
        };
        proof {
            lemma_index(before, i as int);
        }
        if !same_text(path, new_path.as_str()) {
            if position_in(&self.rows, vault_id, new_path.as_str()).is_some() {
                return Err(AppError::Persistence("A file exists at the new path".to_string()));
            }
        }
        let earlier: i64 = self.rows[i].last_sync;
        if earlier == i64::MAX {
            return Err(AppError::Persistence("File stamps exhausted".to_string()));
        }
        let stamp: i64 = if now > earlier {
            now
        } else {
            earlier + 1
        };
        let hash = digest(content.as_str());
        let id = self.rows[i].id;
        let row = File { id, vault_id, path: new_path, content, hash, last_sync: stamp };
        let copy = row.duplicate();
        let mut rows = self.take_rows();
        rows.set(i, row);
        proof {
            let after = views(rows@);
            assert(after =~= before.update(i as int, row@));
            assert forall|a: int, b: int| 0 <= a < b < after.len() implies !is_at(
                #[trigger] after[a],
                (#[trigger] after[b]).vault_id,
                after[b].path,
            ) by {
                assert(!is_at(before[a], before[b].vault_id, before[b].path));
                if a == i as int && is_at(after[a], after[b].vault_id, after[b].path) {
                    assert(is_at(before[b], vault_id, new_path@));
                }
                if b == i as int && is_at(after[a], after[b].vault_id, after[b].path) {
                    assert(is_at(before[a], vault_id, new_path@));
                }
            }
            assert forall|a: int, b: int| 0 <= a < b < after.len() implies (#[trigger] after[a]).id
                != (#[trigger] after[b]).id by {
                assert(before[a].id != before[b].id);
            }
            assert forall|a: int| 0 <= a < after.len() implies (#[trigger] after[a]).id is Some
                && 1 <= after[a].id->0 < self.next by {
                assert(before[a].id is Some);
            }
            assert forall|a: int| 0 <= a < after.len() implies (#[trigger] after[a]).hash
                == digest_of(after[a].content) by {
                assert(before[a].hash == digest_of(before[a].content));
            }
        }
        self.rows = rows;
        Ok(Some(copy))
    }

    /// Explicitly updates the record at `path` at the current time.
    pub fn update(&mut self, vault_id: i32, path: &str, new_path: String, content: String) -> (r:
        Result<Option<File>, AppError>)
        ensures
            match r {
                Ok(Some(f)) => stored(old(self)@, vault_id, path@) && !update_refused(
                    old(self)@,
                    vault_id,
                    path@,
                    new_path@,
                ) && f@ == moved(
                    old(self)@[index_of(old(self)@, vault_id, path@)],
                    new_path@,
                    content@,
                    f.last_sync,
                ) && final(self)@ == update_rows(
                    old(self)@,
                    vault_id,
                    path@,
                    new_path@,
                    content@,
                    f.last_sync,
                ),
                Ok(None) => !stored(old(self)@, vault_id, path@) && final(self)@ == old(self)@,
                Err(e) => update_refused(old(self)@, vault_id, path@, new_path@) && e@
                    is Persistence && final(self)@ == old(self)@,
            },
            final(self).next_id() == old(self).next_id(),
            well_formed(final(self)@, final(self).next_id()),
    {
        let now = now_millis();
        self.update_at(vault_id, path, new_path, content, now)
    }
}

} // verus!
