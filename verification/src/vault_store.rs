//! The vault table: vaults by unique name, created on first reference.

use crate::models::vault::{Vault, VaultView};
use crate::routes::AppError;
use crate::text::same_text;
use vstd::prelude::*;

verus! {

/// Whether a row of `rows` is called `name`.
pub open spec fn named(rows: Seq<VaultView>, name: Seq<char>) -> bool {
    exists|i: int| 0 <= i < rows.len() && (#[trigger] rows[i]).name == name
}

/// The place of a row called `name`.
pub open spec fn index_of_name(rows: Seq<VaultView>, name: Seq<char>) -> int {
    choose|i: int| 0 <= i < rows.len() && (#[trigger] rows[i]).name == name
}

/// A row called `name`.
pub open spec fn row_named(rows: Seq<VaultView>, name: Seq<char>) -> VaultView {
    rows[index_of_name(rows, name)]
}

/// Whether a row of `rows` has the identifier `id`.
pub open spec fn has_id(rows: Seq<VaultView>, id: i32) -> bool {
    exists|i: int| 0 <= i < rows.len() && (#[trigger] rows[i]).id == Some(id)
}

/// No two rows have the same name.
pub open spec fn names_unique(rows: Seq<VaultView>) -> bool {
    forall|i: int, j: int|
        0 <= i < j < rows.len() ==> (#[trigger] rows[i]).name != (#[trigger] rows[j]).name
}

/// Every row has an identifier, below `next_id`, and no two rows share one.
pub open spec fn ids_assigned(rows: Seq<VaultView>, next_id: i32) -> bool {
    &&& forall|i: int|
        0 <= i < rows.len() ==> (#[trigger] rows[i]).id is Some && 1 <= rows[i].id->0 < next_id
    &&& forall|i: int, j: int|
        0 <= i < j < rows.len() ==> (#[trigger] rows[i]).id != (#[trigger] rows[j]).id
}

/// How many rows are called `name`.
pub open spec fn count_named(rows: Seq<VaultView>, name: Seq<char>) -> nat
    decreases rows.len(),
{
    if rows.len() == 0 {
        0
    } else {
        count_named(rows.drop_last(), name) + if rows.last().name == name {
            1nat
        } else {
            0nat
        }
    }
}

/// The row that an insert of `name` adds to a table whose next identifier
/// is `next_id`.
pub open spec fn new_row(next_id: i32, name: Seq<char>) -> VaultView {
    VaultView { id: Some(next_id), name }
}

/// Whether a vault that was stored under `id` and `name` can be put back
/// into `rows`: the identifier is one that an insert can have handed out,
/// and neither it nor the name is in the table.
pub open spec fn restorable(rows: Seq<VaultView>, id: i32, name: Seq<char>) -> bool {
    1 <= id < i32::MAX && !named(rows, name) && !has_id(rows, id)
}

/// The next identifier of a table whose next identifier was `next_id`, once
/// a row stored under `id` is back in it: above every identifier in use.
pub open spec fn next_after(next_id: i32, id: i32) -> i32 {
    if id < next_id {
        next_id
    } else {
        (id + 1) as i32
    }
}

/// A vault table: its rows and the identifier that the next new vault gets.
pub struct VaultTable {
    pub rows: Seq<VaultView>,
    pub next_id: i32,
}

/// Whether get-or-create can answer for `name`: the vault is there, or an
/// identifier is left for it.
pub open spec fn answerable(t: VaultTable, name: Seq<char>) -> bool {
    named(t.rows, name) || t.next_id < i32::MAX
}

/// The vault that get-or-create answers with: the vault called `name`, or,
/// where there is none, a new one under the next identifier.
pub open spec fn found_or_new(t: VaultTable, name: Seq<char>) -> VaultView {
    if named(t.rows, name) {
        row_named(t.rows, name)
    } else {
        new_row(t.next_id, name)
    }
}

/// The table after one call of get-or-create for `name`.
pub open spec fn after_call(t: VaultTable, name: Seq<char>) -> VaultTable {
    if named(t.rows, name) || t.next_id == i32::MAX {
        t
    } else {
        VaultTable { rows: t.rows.push(new_row(t.next_id, name)), next_id: (t.next_id + 1) as i32 }
    }
}

/// The table after `n` calls of get-or-create for `name`. Each call is one
/// step on the table, so callers that run at once are callers in some
/// order; they ask the same, so every order is this one.
pub open spec fn after_calls(t: VaultTable, name: Seq<char>, n: nat) -> VaultTable
    decreases n,
{
    if n == 0 {
        t
    } else {
        after_call(after_calls(t, name, (n - 1) as nat), name)
    }
}

/// Why an insert was refused.
#[derive(Debug, PartialEq, Eq, Structural)]
pub enum InsertError {
    /// A row with this name exists: the name is a unique key.
    UniqueViolation,
    /// Every identifier has been handed out.
    IdsExhausted,
}

/// What `get_or_create` found or did.
#[derive(Debug)]
pub enum Outcome {
    /// The vault existed already.
    Found(Vault),
    /// The vault was created by this call.
    Created(Vault),
}

/// A table without a row called `name` counts none, and the other way round.
pub proof fn lemma_count_zero(rows: Seq<VaultView>, name: Seq<char>)
    ensures
        count_named(rows, name) == 0 <==> !named(rows, name),
    decreases rows.len(),
{
    if rows.len() > 0 {
        let front = rows.drop_last();
        lemma_count_zero(front, name);
        if named(front, name) {
            let i = index_of_name(front, name);
            assert(rows[i] == front[i]);
        }
        if rows.last().name == name {
            assert(rows[rows.len() - 1].name == name);
        }
        if named(rows, name) && rows.last().name != name {
            let i = index_of_name(rows, name);
            assert(front[i] == rows[i]);
        }
    }
}

/// In a table with unique names a name is counted at most once.
pub proof fn lemma_count_at_most_one(rows: Seq<VaultView>, name: Seq<char>)
    requires
        names_unique(rows),
    ensures
        count_named(rows, name) <= 1,
        named(rows, name) ==> count_named(rows, name) == 1,
    decreases rows.len(),
{
    if rows.len() > 0 {
        let front = rows.drop_last();
        assert forall|i: int, j: int| 0 <= i < j < front.len() implies (#[trigger] front[i]).name
            != (#[trigger] front[j]).name by {
            assert(front[i] == rows[i] && front[j] == rows[j]);
        }
        lemma_count_at_most_one(front, name);
        lemma_count_zero(front, name);
        lemma_count_zero(rows, name);
        if rows.last().name == name && named(front, name) {
            let i = index_of_name(front, name);
            assert(rows[i] == front[i]);
            assert(rows[i].name != rows[rows.len() - 1].name);
        }
    }
}

/// A table can be read back row by row: each vault of a table can be put
/// back onto the vaults before it, and that gives the table up to and with
/// that vault, under the identifier it had.
pub proof fn law_table_is_read_back(rows: Seq<VaultView>, next_id: i32, i: int)
    requires
        names_unique(rows),
        ids_assigned(rows, next_id),
        0 <= i < rows.len(),
    ensures
        restorable(rows.take(i), rows[i].id->0, rows[i].name),
        rows.take(i).push(new_row(rows[i].id->0, rows[i].name)) == rows.take(i + 1),
{
    let front = rows.take(i);
    if has_id(front, rows[i].id->0) {
        let j = choose|j: int| 0 <= j < front.len() && (#[trigger] front[j]).id == rows[i].id;
        assert(front[j] == rows[j]);
        assert(rows[j].id != rows[i].id);
    }
    if named(front, rows[i].name) {
        let j = index_of_name(front, rows[i].name);
        assert(front[j] == rows[j]);
        assert(rows[j].name != rows[i].name);
    }
    assert(front.push(new_row(rows[i].id->0, rows[i].name)) =~= rows.take(i + 1));
}

/// However many callers get or create one vault, `n` of them: exactly one
/// vault of that name is there when all of them have returned, and the
/// table is as the first call left it. Every caller, here the one that
/// comes after `k` others, is answered, and with that vault, under one
/// identifier. Where the name was free, the first caller, and no other,
/// created it.
pub proof fn law_callers_create_one_vault(t: VaultTable, name: Seq<char>, n: nat, k: nat)
    requires
        names_unique(t.rows),
        answerable(t, name),
        k < n,
    ensures
        after_calls(t, name, n) == after_call(t, name),
        count_named(after_calls(t, name, n).rows, name) == 1,
        names_unique(after_calls(t, name, n).rows),
        answerable(after_calls(t, name, k), name),
        found_or_new(after_calls(t, name, k), name) == found_or_new(t, name),
        !named(after_calls(t, name, k).rows, name) <==> k == 0 && !named(t.rows, name),
{
    lemma_named_after_call(t, name);
    lemma_calls_settle(t, name, n);
    lemma_count_at_most_one(after_call(t, name).rows, name);
    if k > 0 {
        lemma_calls_settle(t, name, k);
    }
}

/// The first call settles the table: no later call changes it.
proof fn lemma_calls_settle(t: VaultTable, name: Seq<char>, n: nat)
    requires
        names_unique(t.rows),
        answerable(t, name),
        n >= 1,
    ensures
        after_calls(t, name, n) == after_call(t, name),
    decreases n,
{
    lemma_named_after_call(t, name);
    if n > 1 {
        lemma_calls_settle(t, name, (n - 1) as nat);
    } else {
        assert(after_calls(t, name, 0) == t);
    }
}

/// After a call that can be answered the vault is there, where the call
/// said it is, and names are still unique.
proof fn lemma_named_after_call(t: VaultTable, name: Seq<char>)
    requires
        names_unique(t.rows),
        answerable(t, name),
    ensures
        named(after_call(t, name).rows, name),
        names_unique(after_call(t, name).rows),
        row_named(after_call(t, name).rows, name) == found_or_new(t, name),
{
    let one = after_call(t, name).rows;
    if !named(t.rows, name) {
        let last = t.rows.len() as int;
        assert(one[last].name == name);
        assert forall|i: int, j: int| 0 <= i < j < one.len() implies (#[trigger] one[i]).name
            != (#[trigger] one[j]).name by {
            if j < last {
                assert(t.rows[i].name != t.rows[j].name);
            } else {
                assert(one[i] == t.rows[i]);
            }
        }
        let i = index_of_name(one, name);
        if i < last {
            assert(t.rows[i] == one[i]);
        }
    }
}

/// The vault table.
pub struct VaultStore {
    rows: Vec<Vault>,
    next: i32,
}

impl View for VaultStore {
    type V = Seq<VaultView>;

    closed spec fn view(&self) -> Seq<VaultView> {
        self.rows@.map_values(|v: Vault| v@)
    }
}

impl VaultStore {
    /// What holds of every vault table: names are unique, and identifiers
    /// are assigned, unique and below the next one.
    #[verifier::type_invariant]
    pub closed spec fn inv(&self) -> bool {
        &&& 1 <= self.next
        &&& names_unique(self@)
        &&& ids_assigned(self@, self.next)
    }

    /// In every vault table names are unique, and identifiers are assigned,
    /// unique and below the next one.
    pub proof fn rows_are_sound(&self)
        requires
            self.inv(),
        ensures
            names_unique(self@),
            ids_assigned(self@, self.next_id()),
    {
    }

    /// The identifier that the next new vault gets.
    pub closed spec fn next_id(&self) -> i32 {
        self.next
    }

    /// The rows and the next identifier.
    pub open spec fn table(&self) -> VaultTable {
        VaultTable { rows: self@, next_id: self.next_id() }
    }

    /// An empty table.
    pub fn new() -> (s: VaultStore)
        ensures
            s@ == Seq::<VaultView>::empty(),
            s.next_id() == 1,
    {
        let s = VaultStore { rows: Vec::new(), next: 1 };
        assert(s@ =~= Seq::<VaultView>::empty());
        s
    }

    /// The number of vaults.
    pub fn len(&self) -> (n: usize)
        ensures
            n == self@.len(),
    {
        self.rows.len()
    }

    /// A copy of the table, to go back to where an insert has to be undone.
    pub fn duplicate(&self) -> (copy: VaultStore)
        ensures
            copy@ == self@,
            copy.next_id() == self.next_id(),
    {
        proof {
            use_type_invariant(self);
        }
        let mut rows: Vec<Vault> = Vec::new();
        let mut i: usize = 0;
        while i < self.rows.len()
            invariant
                i <= self.rows.len(),
                rows.len() == i,
                forall|j: int| 0 <= j < i ==> (#[trigger] rows[j])@ == self.rows[j]@,
            decreases self.rows.len() - i,
        {
            rows.push(self.rows[i].duplicate());
            i = i + 1;
        }
        assert(rows@.map_values(|v: Vault| v@) =~= self@);
        VaultStore { rows, next: self.next }
    }

    fn position(&self, name: &str) -> (r: Option<usize>)
        ensures
            match r {
                Some(i) => i < self@.len() && self@[i as int].name == name@,
                None => !named(self@, name@),
            },
    {
        let mut i: usize = 0;
        while i < self.rows.len()
            invariant
                i <= self.rows.len(),
                self@.len() == self.rows.len(),
                forall|j: int| 0 <= j < i ==> (#[trigger] self@[j]).name != name@,
            decreases self.rows.len() - i,
        {
            if same_text(self.rows[i].name.as_str(), name) {
                return Some(i);
            }
            i = i + 1;
        }
        None
    }

    /// The vault called `name`, if there is one.
    pub fn find_by_name(&self, name: &str) -> (r: Option<Vault>)
        ensures
            match r {
                Some(v) => named(self@, name@) && v@ == row_named(self@, name@),
                None => !named(self@, name@),
            },
            names_unique(self@),
            ids_assigned(self@, self.next_id()),
    {
        proof {
            use_type_invariant(self);
        }
        match self.position(name) {
            Some(i) => {
                proof {
                    let j = index_of_name(self@, name@);
                    assert(self@[i as int].name == name@);
                    if j < i {
                        assert(self@[j].name != self@[i as int].name);
                    }
                    if i < j {
                        assert(self@[i as int].name != self@[j].name);
                    }
                }
                Some(self.rows[i].duplicate())
            },
            None => None,
        }
    }

    /// Whether a vault has the identifier `id`.
    pub fn contains_id(&self, id: i32) -> (b: bool)
        ensures
            b == has_id(self@, id),
    {
        let mut i: usize = 0;
        while i < self.rows.len()
            invariant
                i <= self.rows.len(),
                self@.len() == self.rows.len(),
                forall|j: int| 0 <= j < i ==> (#[trigger] self@[j]).id != Some(id),
            decreases self.rows.len() - i,
        {
            match self.rows[i].id {
                Some(k) => {
                    if k == id {
                        assert(self@[i as int].id == Some(id));
                        return true;
                    }
                },
                None => {},
            }
            i = i + 1;
        }
        false
    }

    /// Adds a vault called `name` under the next identifier. The name is a
    /// unique key: where a vault of that name exists, the insert is refused
    /// and the table stays as it was.
    pub fn insert(&mut self, name: String) -> (r: Result<Vault, InsertError>)
        ensures
            match r {
                Ok(v) => !named(old(self)@, name@) && v@ == new_row(old(self).next_id(), name@)
                    && final(self)@ == old(self)@.push(v@) && final(self).next_id() == old(self).next_id() + 1,
                Err(e) => final(self)@ == old(self)@ && final(self).next_id() == old(self).next_id() && (e == InsertError::UniqueViolation <==> named(old(self)@, name@))
                    && (e == InsertError::IdsExhausted ==> old(self).next_id() == i32::MAX),
            },
            names_unique(final(self)@),
            ids_assigned(final(self)@, final(self).next_id()),
    {
        proof {
            use_type_invariant(&*self);
        }
        if self.position(name.as_str()).is_some() {
            return Err(InsertError::UniqueViolation);
        }
        if self.next == i32::MAX {
            return Err(InsertError::IdsExhausted);
        }
        let id: i32 = self.next;
        let stored = Vault { id: Some(id), name };
        let copy = stored.duplicate();
        let ghost before = self@;
        let mut rows: Vec<Vault> = Vec::new();
        proof {
            assert(rows@.map_values(|v: Vault| v@) =~= Seq::<VaultView>::empty());
        }
        core::mem::swap(&mut self.rows, &mut rows);
        rows.push(stored);
        proof {
            let after = rows@.map_values(|v: Vault| v@);
            assert(after =~= before.push(stored@));
            assert forall|i: int, j: int| 0 <= i < j < after.len() implies (#[trigger] after[i]).name
                != (#[trigger] after[j]).name by {
                if j < before.len() {
                    assert(before[i].name != before[j].name);
                } else {
                    assert(after[i] == before[i]);
                }
            }
            assert forall|i: int, j: int| 0 <= i < j < after.len() implies (#[trigger] after[i]).id
                != (#[trigger] after[j]).id by {
                if j < before.len() {
                    assert(before[i].id != before[j].id);
                } else {
                    assert(after[i] == before[i]);
                }
            }
            assert forall|i: int| 0 <= i < after.len() implies (#[trigger] after[i]).id is Some
                && 1 <= after[i].id->0 < id + 1 by {
                if i < before.len() {
                    assert(after[i] == before[i]);
                }
            }
        }
        self.next = id + 1;
        self.rows = rows;
        Ok(copy)
    }

    /// Puts back a vault that was stored under `id`, with that identifier:
    /// what was stored is read back as it was stored, whatever identifiers
    /// are missing in between. Where the identifier or the name is in the
    /// table already, or the identifier is none that an insert hands out,
    /// nothing is put back and the table stays as it was.
    pub fn restore(&mut self, id: i32, name: String) -> (restored: bool)
        ensures
            restored == restorable(old(self)@, id, name@),
            final(self)@ == if restored {
                old(self)@.push(new_row(id, name@))
            } else {
                old(self)@
            },
            final(self).next_id() == if restored {
                next_after(old(self).next_id(), id)
            } else {
                old(self).next_id()
            },
            names_unique(final(self)@),
            ids_assigned(final(self)@, final(self).next_id()),
    {
        proof {
            use_type_invariant(&*self);
        }
        if id < 1 || id == i32::MAX || self.contains_id(id) || self.position(
            name.as_str(),
        ).is_some() {
            return false;
        }
        let next: i32 = if id < self.next {
            self.next
        } else {
            id + 1
        };
        let stored = Vault { id: Some(id), name };
        let ghost before = self@;
        let mut rows: Vec<Vault> = Vec::new();
        proof {
            assert(rows@.map_values(|v: Vault| v@) =~= Seq::<VaultView>::empty());
        }
        core::mem::swap(&mut self.rows, &mut rows);
        rows.push(stored);
        proof {
            let after = rows@.map_values(|v: Vault| v@);
            assert(after =~= before.push(stored@));
            assert forall|i: int, j: int| 0 <= i < j < after.len() implies (#[trigger] after[i]).name
                != (#[trigger] after[j]).name by {
                if j < before.len() {
                    assert(before[i].name != before[j].name);
                } else {
                    assert(after[i] == before[i]);
                }
            }
            assert forall|i: int, j: int| 0 <= i < j < after.len() implies (#[trigger] after[i]).id
                != (#[trigger] after[j]).id by {
                if j < before.len() {
                    assert(before[i].id != before[j].id);
                } else {
                    assert(after[i] == before[i]);
                }
            }
            assert forall|i: int| 0 <= i < after.len() implies (#[trigger] after[i]).id is Some
                && 1 <= after[i].id->0 < next by {
                if i < before.len() {
                    assert(after[i] == before[i]);
                }
            }
        }
        self.next = next;
        self.rows = rows;
        true
    }

    /// The vault called `name`: the existing one, or a new one where none
    /// exists. Fails only where a new vault is needed and every identifier
    /// has been handed out.
    pub fn get_or_create(&mut self, name: &str) -> (r: Result<Outcome, AppError>)
        ensures
            match r {
                Ok(Outcome::Found(v)) => named(old(self)@, name@) && v@ == row_named(
                    old(self)@,
                    name@,
                ) && final(self)@ == old(self)@ && final(self).next_id() == old(self).next_id(),
                Ok(Outcome::Created(v)) => !named(old(self)@, name@) && v@ == new_row(
                    old(self).next_id(),
                    name@,
                ) && final(self)@ == old(self)@.push(v@) && final(self).next_id() == old(self).next_id() + 1,
                Err(e) => !named(old(self)@, name@) && old(self).next_id() == i32::MAX && e@
                    is Persistence && final(self)@ == old(self)@ && final(self).next_id() == old(self).next_id(),
            },
            names_unique(final(self)@),
            ids_assigned(final(self)@, final(self).next_id()),
            count_named(final(self)@, name@) == if r is Ok {
                1nat
            } else {
                0nat
            },
            r is Ok <==> answerable(old(self).table(), name@),
            final(self).table() == after_call(old(self).table(), name@),
    {
        let ghost before = self@;
        let r = match self.find_by_name(name) {
            Some(v) => Ok(Outcome::Found(v)),
            None => match self.insert(name.to_string()) {
                Ok(v) => Ok(Outcome::Created(v)),
                Err(_) => Err(AppError::Persistence("Vault identifiers exhausted".to_string())),
            },
        };
        proof {
            use_type_invariant(&*self);
            lemma_count_at_most_one(self@, name@);
            lemma_count_zero(self@, name@);
            if r is Ok && !named(before, name@) {
                assert(self@[before.len() as int].name == name@);
            }
        }
        r
    }
}

} // verus!
