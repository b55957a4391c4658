//! `POST /vault/`: look a vault up by name, creating it on first reference.

use crate::models::vault::Vault;
use crate::routes::{AppError, AppErrorView, ServerState};
use crate::vault_store::{
    after_call, answerable, count_named, found_or_new, ids_assigned, named, names_unique,
    new_row, next_after, restorable, row_named, Outcome, VaultStore,
};
use vstd::prelude::*;

verus! {

/// The status of the answer for a vault that existed already.
pub const OK: u16 = 200;

/// The status of the answer for a vault that this request created.
pub const CREATED: u16 = 201;

/// What the durable store answered to the insert of a vault.
#[derive(Debug)]
pub enum VaultWrite {
    /// The vault was inserted.
    Inserted,
    /// The name was taken: another writer had just created the vault. Holds
    /// the identifier under which the lookup that followed found it, or
    /// nothing where that lookup found none.
    Taken(Option<i32>),
    /// The store failed, with this message.
    Failed(String),
}

/// What is reported where a vault was refused as taken and then not found.
pub const VANISHED: &'static str = "Vault was taken and then not found";

/// What is reported where the store holds a vault that the table cannot
/// take in.
pub const UNFIT: &'static str = "Stored vault does not fit the table";

/// Takes the answer of the durable store to the insert of the vault
/// `created`, which a request has just created in the table. `kept` is the
/// copy of the vault table taken before the request.
///
/// Where the store inserted the vault, the table stays and the answer is
/// the new vault and `201`. Where the store refused the name as taken,
/// another writer was faster: the request is undone, the other writer's
/// vault is taken into the table under the identifier that the store has it
/// under, and the answer is that vault and `200`. Where the store failed, or
/// the vault it reported cannot be found or taken in, the request is undone
/// and the failure is reported.
pub fn settle_vault(state: &mut ServerState, kept: VaultStore, created: Vault, written: VaultWrite) -> (r:
    Result<(u16, Vault), AppError>)
    ensures
        match written {
            VaultWrite::Inserted => {
                &&& r is Ok
                &&& r->Ok_0.0 == CREATED
                &&& r->Ok_0.1@ == created@
                &&& final(state).vaults.table() == old(state).vaults.table()
            },
            VaultWrite::Taken(Some(id)) => if restorable(kept@, id, created.name@) {
                &&& r is Ok
                &&& r->Ok_0.0 == OK
                &&& r->Ok_0.1@ == new_row(id, created.name@)
                &&& final(state).vaults@ == kept@.push(new_row(id, created.name@))
                &&& final(state).vaults.next_id() == next_after(kept.next_id(), id)
            } else {
                &&& r is Err
                &&& r->Err_0@ == AppErrorView::Persistence(UNFIT@)
                &&& final(state).vaults.table() == kept.table()
            },
            VaultWrite::Taken(None) => {
                &&& r is Err
                &&& r->Err_0@ == AppErrorView::Persistence(VANISHED@)
                &&& final(state).vaults.table() == kept.table()
            },
            VaultWrite::Failed(m) => {
                &&& r is Err
                &&& r->Err_0@ == AppErrorView::Persistence(m@)
                &&& final(state).vaults.table() == kept.table()
            },
        },
        names_unique(final(state).vaults@),
        ids_assigned(final(state).vaults@, final(state).vaults.next_id()),
        final(state).same_sessions(old(state)),
        final(state).same_settings(old(state)),
        final(state).files.state() == old(state).files.state(),
{
    proof {
        use_type_invariant(&state.vaults);
        state.vaults.rows_are_sound();
        use_type_invariant(&kept);
        kept.rows_are_sound();
    }
    match written {
        VaultWrite::Inserted => Ok((CREATED, created)),
        VaultWrite::Taken(Some(id)) => {
            let mut table = kept;
            let name = created.name;
            let restored = table.restore(id, name.clone());
            state.vaults = table;
            if restored {
                Ok((OK, Vault { id: Some(id), name }))
            } else {
                Err(AppError::Persistence(String::from_str(UNFIT)))
            }
        },
        VaultWrite::Taken(None) => {
            state.vaults = kept;
            Err(AppError::Persistence(String::from_str(VANISHED)))
        },
        VaultWrite::Failed(m) => {
            state.vaults = kept;
            Err(AppError::Persistence(m))
        },
    }
}

/// Answers with the vault called `value.name`: the existing vault and `200`,
/// or, where there is none, a new vault and `201`. Whatever identifier the
/// request carries is ignored: identifiers are the server's to assign.
/// Afterwards exactly one vault has that name.
pub fn save(state: &mut ServerState, value: Vault) -> (r: Result<(u16, Vault), AppError>)
    ensures
        match r {
            Ok(answer) => if named(old(state).vaults@, value.name@) {
                &&& answer.0 == OK
                &&& answer.1@ == row_named(old(state).vaults@, value.name@)
                &&& final(state).vaults@ == old(state).vaults@
                &&& final(state).vaults.next_id() == old(state).vaults.next_id()
            } else {
                &&& answer.0 == CREATED
                &&& answer.1@ == new_row(old(state).vaults.next_id(), value.name@)
                &&& final(state).vaults@ == old(state).vaults@.push(answer.1@)
                &&& final(state).vaults.next_id() == old(state).vaults.next_id() + 1
            },
            Err(e) => {
                &&& e@ is Persistence
                &&& !named(old(state).vaults@, value.name@)
                &&& old(state).vaults.next_id() == i32::MAX
                &&& final(state).vaults@ == old(state).vaults@
                &&& final(state).vaults.next_id() == old(state).vaults.next_id()
            },
        },
        r is Ok <==> answerable(old(state).vaults.table(), value.name@),
        r is Ok ==> r->Ok_0.1@ == found_or_new(old(state).vaults.table(), value.name@),
        final(state).vaults.table() == after_call(old(state).vaults.table(), value.name@),
        r is Ok ==> count_named(final(state).vaults@, value.name@) == 1,
        names_unique(final(state).vaults@),
        ids_assigned(final(state).vaults@, final(state).vaults.next_id()),
        final(state).same_sessions(old(state)),
        final(state).same_settings(old(state)),
        final(state).files.state() == old(state).files.state(),
{
    match state.vaults.get_or_create(value.name.as_str()) {
        Ok(Outcome::Found(vault)) => Ok((OK, vault)),
        Ok(Outcome::Created(vault)) => Ok((CREATED, vault)),
        Err(e) => Err(e),
    }
}

} // verus!
