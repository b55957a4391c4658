//! Get-or-create under concurrency.
//!
//! Against a shared store a caller cannot look a vault up and insert it in
//! one step: other callers run in between. Each caller therefore looks the
//! name up, inserts where it found nothing, and, where the insert hits the
//! unique key because another caller was faster, looks the name up again.
//! This module holds that decision, and the proof that callers racing for
//! one name leave exactly one vault of that name, created by exactly one of
//! them.

use crate::models::vault::VaultView;
use crate::vault_store::{
    after_call, answerable, index_of_name, named, new_row, InsertError, VaultStore, VaultTable,
};
use vstd::prelude::*;

verus! {

/// Where one caller of get-or-create stands.
#[derive(Debug, PartialEq, Eq, Structural, Clone, Copy)]
pub enum Caller {
    /// About to look the name up.
    Start,
    /// The lookup found nothing: about to insert.
    Inserting,
    /// The insert hit the unique key: about to look the name up again.
    Retrying,
    /// Done: the vault existed.
    Found,
    /// Done: this caller created the vault.
    Created,
    /// Done: the store failed.
    Failed,
}

/// What a caller asks of the store next.
#[derive(Debug, PartialEq, Eq, Structural, Clone, Copy)]
pub enum Request {
    /// Look the name up.
    Lookup,
    /// Insert the name.
    Insert,
    /// Nothing: the caller is done.
    Nothing,
}

/// What a caller in state `c` asks of the store.
pub open spec fn request_of(c: Caller) -> Request {
    match c {
        Caller::Start => Request::Lookup,
        Caller::Retrying => Request::Lookup,
        Caller::Inserting => Request::Insert,
        _ => Request::Nothing,
    }
}

/// The caller's state after a lookup that found the name, or did not.
pub open spec fn lookup_next(c: Caller, found: bool) -> Caller {
    match c {
        Caller::Start => if found {
            Caller::Found
        } else {
            Caller::Inserting
        },
        Caller::Retrying => if found {
            Caller::Found
        } else {
            Caller::Failed
        },
        _ => c,
    }
}

/// The caller's state after an insert that succeeded, hit the unique key,
/// or failed otherwise.
pub open spec fn insert_next(c: Caller, outcome: Result<(), InsertError>) -> Caller {
    match c {
        Caller::Inserting => match outcome {
            Ok(()) => Caller::Created,
            Err(InsertError::UniqueViolation) => Caller::Retrying,
            Err(InsertError::IdsExhausted) => Caller::Failed,
        },
        _ => c,
    }
}

/// What a caller asks of the store next.
pub fn next_request(c: Caller) -> (r: Request)
    ensures
        r == request_of(c),
{
    match c {
        Caller::Start => Request::Lookup,
        Caller::Retrying => Request::Lookup,
        Caller::Inserting => Request::Insert,
        _ => Request::Nothing,
    }
}

/// Takes the answer to a lookup: a vault that is there is found; a first
/// lookup that finds nothing leads to an insert; a lookup after a refused
/// insert that still finds nothing is a failure of the store.
pub fn after_lookup(c: Caller, found: bool) -> (next: Caller)
    ensures
        next == lookup_next(c, found),
{
    match c {
        Caller::Start => if found {
            Caller::Found
        } else {
            Caller::Inserting
        },
        Caller::Retrying => if found {
            Caller::Found
        } else {
            Caller::Failed
        },
        _ => c,
    }
}

/// Takes the answer to an insert: success means this caller created the
/// vault; a violation of the unique key means that another caller just
/// created it, and is answered by a second lookup.
pub fn after_insert(c: Caller, outcome: Result<(), InsertError>) -> (next: Caller)
    ensures
        next == insert_next(c, outcome),
{
    match c {
        Caller::Inserting => match outcome {
            Ok(()) => Caller::Created,
            Err(InsertError::UniqueViolation) => Caller::Retrying,
            Err(InsertError::IdsExhausted) => Caller::Failed,
        },
        _ => c,
    }
}

/// The names of a table's rows, and the callers racing on it.
pub struct Race {
    pub names: Seq<Seq<char>>,
    pub callers: Seq<Caller>,
}

/// How many rows are called `name`.
pub open spec fn rows_named(names: Seq<Seq<char>>, name: Seq<char>) -> nat
    decreases names.len(),
{
    if names.len() == 0 {
        0
    } else {
        rows_named(names.drop_last(), name) + if names.last() == name {
            1nat
        } else {
            0nat
        }
    }
}

/// How many callers created the vault.
pub open spec fn creators(callers: Seq<Caller>) -> nat
    decreases callers.len(),
{
    if callers.len() == 0 {
        0
    } else {
        creators(callers.drop_last()) + if callers.last() == Caller::Created {
            1nat
        } else {
            0nat
        }
    }
}

/// The race after caller `i` took its next step against the store, as one
/// atomic request: a lookup sees the table as it is; an insert adds the row
/// unless the name is there, in which case the unique key refuses it.
pub open spec fn step(r: Race, name: Seq<char>, i: int) -> Race {
    if 0 <= i < r.callers.len() {
        let c = r.callers[i];
        let there = rows_named(r.names, name) > 0;
        match request_of(c) {
            Request::Lookup => Race { callers: r.callers.update(i, lookup_next(c, there)), ..r },
            Request::Insert => if there {
                Race {
                    callers: r.callers.update(
                        i,
                        insert_next(c, Err(InsertError::UniqueViolation)),
                    ),
                    ..r
                }
            } else {
                Race {
                    names: r.names.push(name),
                    callers: r.callers.update(i, insert_next(c, Ok(()))),
                }
            },
            Request::Nothing => r,
        }
    } else {
        r
    }
}

/// The names of a table's rows.
pub open spec fn names_of(rows: Seq<VaultView>) -> Seq<Seq<char>> {
    rows.map_values(|v: VaultView| v.name)
}

/// A table has as many rows of a name as its names say: none exactly where
/// no row is called so.
pub proof fn lemma_names_of_table(rows: Seq<VaultView>, name: Seq<char>)
    ensures
        rows_named(names_of(rows), name) > 0 <==> named(rows, name),
    decreases rows.len(),
{
    let names = names_of(rows);
    if rows.len() > 0 {
        let front = rows.drop_last();
        assert(names.drop_last() =~= names_of(front));
        assert(names.last() == rows[rows.len() - 1].name);
        lemma_names_of_table(front, name);
        if named(front, name) {
            let i = index_of_name(front, name);
            assert(rows[i] == front[i]);
        }
        if named(rows, name) && rows[rows.len() - 1].name != name {
            let i = index_of_name(rows, name);
            assert(front[i] == rows[i]);
        }
    }
}

/// One caller's next step against the vault table: it makes the request
/// that the caller is about to make, and takes the answer. While
/// identifiers are left, this is the step of the race, on the table's names.
pub fn advance(store: &mut VaultStore, name: &str, c: Caller) -> (next: Caller)
    ensures
        next == match request_of(c) {
            Request::Lookup => lookup_next(c, named(old(store)@, name@)),
            Request::Insert => insert_next(
                c,
                if named(old(store)@, name@) {
                    Err(InsertError::UniqueViolation)
                } else if old(store).next_id() == i32::MAX {
                    Err(InsertError::IdsExhausted)
                } else {
                    Ok(())
                },
            ),
            Request::Nothing => c,
        },
        final(store)@ == if c == Caller::Inserting && next == Caller::Created {
            old(store)@.push(new_row(old(store).next_id(), name@))
        } else {
            old(store)@
        },
        old(store).next_id() < i32::MAX ==> step(
            Race { names: names_of(old(store)@), callers: seq![c] },
            name@,
            0,
        ) == (Race { names: names_of(final(store)@), callers: seq![next] }),
{
    proof {
        lemma_names_of_table(store@, name@);
    }
    let next = match next_request(c) {
        Request::Lookup => after_lookup(c, store.find_by_name(name).is_some()),
        Request::Insert => match store.insert(name.to_string()) {
            Ok(_) => after_insert(c, Ok(())),
            Err(e) => after_insert(c, Err(e)),
        },
        Request::Nothing => c,
    };
    proof {
        assert(seq![c].update(0, next) =~= seq![next]);
        if c == Caller::Inserting && next == Caller::Created {
            assert(names_of(store@) =~= names_of(old(store)@).push(name@));
        }
    }
    next
}

/// The race after the callers took their steps in the order of `schedule`.
pub open spec fn race(r: Race, name: Seq<char>, schedule: Seq<int>) -> Race
    decreases schedule.len(),
{
    if schedule.len() == 0 {
        r
    } else {
        step(race(r, name, schedule.drop_last()), name, schedule.last())
    }
}

/// One call of get-or-create is the run of one caller of the race, from
/// its start to its end: a lookup, and an insert where the lookup found
/// nothing. It leaves the table that the call leaves, and the caller has
/// found the vault or created it as the call says. So what holds of the
/// race in every order of the callers' steps holds of calls that run at
/// once, also where their lookups and inserts reach the table in turn.
pub proof fn law_call_is_one_callers_run(t: VaultTable, name: Seq<char>)
    requires
        answerable(t, name),
    ensures
        ({
            let start = Race { names: names_of(t.rows), callers: seq![Caller::Start] };
            let end = race(start, name, seq![0int, 0int]);
            &&& end.names == names_of(after_call(t, name).rows)
            &&& end.callers == seq![
                if named(t.rows, name) {
                    Caller::Found
                } else {
                    Caller::Created
                },
            ]
        }),
{
    let start = Race { names: names_of(t.rows), callers: seq![Caller::Start] };
    let both = seq![0int, 0int];
    let first = both.drop_last();
    lemma_names_of_table(t.rows, name);
    assert(first.drop_last() =~= Seq::<int>::empty());
    assert(race(start, name, first.drop_last()) == start);
    let mid = race(start, name, first);
    assert(mid == step(start, name, 0));
    let end = race(start, name, both);
    assert(end == step(mid, name, 0));
    if named(t.rows, name) {
        assert(mid.callers =~= seq![Caller::Found]);
        assert(end.callers =~= seq![Caller::Found]);
    } else {
        assert(mid.callers =~= seq![Caller::Inserting]);
        assert(end.callers =~= seq![Caller::Created]);
        assert(end.names =~= names_of(after_call(t, name).rows));
    }
}

/// Every caller is at the start.
pub open spec fn all_starting(callers: Seq<Caller>) -> bool {
    forall|i: int| 0 <= i < callers.len() ==> #[trigger] callers[i] == Caller::Start
}

/// Every caller is done.
pub open spec fn all_done(callers: Seq<Caller>) -> bool {
    forall|i: int| 0 <= i < callers.len() ==> request_of(#[trigger] callers[i]) == Request::Nothing
}

spec fn holds(r: Race, name: Seq<char>, before: nat) -> bool {
    &&& rows_named(r.names, name) == before + creators(r.callers)
    &&& rows_named(r.names, name) <= 1
    &&& forall|i: int|
        0 <= i < r.callers.len() ==> (#[trigger] r.callers[i]) != Caller::Failed && (r.callers[i]
            == Caller::Retrying || r.callers[i] == Caller::Found || r.callers[i]
            == Caller::Created ==> rows_named(r.names, name) == 1)
}

proof fn lemma_creators_update(callers: Seq<Caller>, i: int, c: Caller)
    requires
        0 <= i < callers.len(),
    ensures
        creators(callers.update(i, c)) + (if callers[i] == Caller::Created {
            1nat
        } else {
            0nat
        }) == creators(callers) + (if c == Caller::Created {
            1nat
        } else {
            0nat
        }),
    decreases callers.len(),
{
    let after = callers.update(i, c);
    if i == callers.len() - 1 {
        assert(after.drop_last() =~= callers.drop_last());
    } else {
        assert(after.drop_last() =~= callers.drop_last().update(i, c));
        lemma_creators_update(callers.drop_last(), i, c);
    }
}

proof fn lemma_no_creators_at_start(callers: Seq<Caller>)
    requires
        all_starting(callers),
    ensures
        creators(callers) == 0,
    decreases callers.len(),
{
    if callers.len() > 0 {
        assert(callers.last() == callers[callers.len() - 1]);
        assert forall|i: int| 0 <= i < callers.drop_last().len() implies #[trigger] callers.drop_last()[i]
            == Caller::Start by {
            assert(callers.drop_last()[i] == callers[i]);
        }
        lemma_no_creators_at_start(callers.drop_last());
    }
}

proof fn lemma_step_holds(r: Race, name: Seq<char>, before: nat, i: int)
    requires
        holds(r, name, before),
    ensures
        holds(step(r, name, i), name, before),
        step(r, name, i).callers.len() == r.callers.len(),
{
    if 0 <= i < r.callers.len() {
        let c = r.callers[i];
        let next = step(r, name, i);
        lemma_creators_update(r.callers, i, next.callers[i]);
        if request_of(c) == Request::Insert && rows_named(r.names, name) == 0 {
            assert(r.names.push(name).drop_last() =~= r.names);
        }
        assert forall|j: int| 0 <= j < next.callers.len() implies (#[trigger] next.callers[j])
            != Caller::Failed && (next.callers[j] == Caller::Retrying || next.callers[j]
            == Caller::Found || next.callers[j] == Caller::Created ==> rows_named(
            next.names,
            name,
        ) == 1) by {
            if j != i {
                assert(next.callers[j] == r.callers[j]);
            }
        }
    }
}

proof fn lemma_race_holds(r: Race, name: Seq<char>, before: nat, schedule: Seq<int>)
    requires
        holds(r, name, before),
    ensures
        holds(race(r, name, schedule), name, before),
        race(r, name, schedule).callers.len() == r.callers.len(),
    decreases schedule.len(),
{
    if schedule.len() > 0 {
        lemma_race_holds(r, name, before, schedule.drop_last());
        lemma_step_holds(race(r, name, schedule.drop_last()), name, before, schedule.last());
    }
}

/// Callers racing to get or create one vault leave at most one vault of
/// that name, whatever the order of their steps: where the name was taken
/// before, nobody creates it; where it was free, as many vaults of the name
/// exist as callers saw themselves create it, and that is one at most. No
/// caller ends in failure. Once every caller is done, exactly one vault has
/// the name, and, where the name was free, exactly one caller created it.
pub proof fn law_racing_callers_create_one_vault(
    names: Seq<Seq<char>>,
    callers: Seq<Caller>,
    name: Seq<char>,
    schedule: Seq<int>,
)
    requires
        rows_named(names, name) <= 1,
        all_starting(callers),
    ensures
        ({
            let end = race(Race { names, callers }, name, schedule);
            &&& end.callers.len() == callers.len()
            &&& rows_named(end.names, name) <= 1
            &&& rows_named(end.names, name) == rows_named(names, name) + creators(end.callers)
            &&& forall|i: int|
                0 <= i < end.callers.len() ==> #[trigger] end.callers[i] != Caller::Failed
            &&& all_done(end.callers) && callers.len() > 0 ==> rows_named(end.names, name) == 1
                && creators(end.callers) == 1 - rows_named(names, name)
        }),
{
    let start = Race { names, callers };
    let before = rows_named(names, name);
    lemma_no_creators_at_start(callers);
    lemma_race_holds(start, name, before, schedule);
    let end = race(start, name, schedule);
    if all_done(end.callers) && callers.len() > 0 {
        assert(request_of(end.callers[0]) == Request::Nothing);
    }
}

} // verus!
