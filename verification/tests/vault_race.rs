use concur_server::text::same_text;
use concur_server::vault_race::{
    advance, after_insert, after_lookup, next_request, Caller, Request,
};
use concur_server::vault_store::{InsertError, VaultStore};

fn step(store: &mut VaultStore, caller: Caller, name: &str) -> Caller {
    advance(store, name, caller)
}

#[test]
fn decisions_of_one_caller() {
    assert_eq!(next_request(Caller::Start), Request::Lookup);
    assert_eq!(next_request(Caller::Inserting), Request::Insert);
    assert_eq!(next_request(Caller::Retrying), Request::Lookup);
    assert_eq!(next_request(Caller::Found), Request::Nothing);
    assert_eq!(next_request(Caller::Created), Request::Nothing);
    assert_eq!(next_request(Caller::Failed), Request::Nothing);
    assert_eq!(after_lookup(Caller::Start, true), Caller::Found);
    assert_eq!(after_lookup(Caller::Start, false), Caller::Inserting);
    assert_eq!(after_lookup(Caller::Retrying, true), Caller::Found);
    assert_eq!(after_lookup(Caller::Retrying, false), Caller::Failed);
    assert_eq!(after_lookup(Caller::Created, false), Caller::Created);
    assert_eq!(after_insert(Caller::Inserting, Ok(())), Caller::Created);
    assert_eq!(
        after_insert(Caller::Inserting, Err(InsertError::UniqueViolation)),
        Caller::Retrying
    );
    assert_eq!(after_insert(Caller::Inserting, Err(InsertError::IdsExhausted)), Caller::Failed);
    assert_eq!(after_insert(Caller::Found, Ok(())), Caller::Found);
}

#[test]
fn racing_callers_create_exactly_one_vault() {
    // Every caller looks the name up before any of them inserts: the worst
    // interleaving, in which all of them find nothing.
    let mut store = VaultStore::new();
    let mut callers = vec![Caller::Start; 5];
    for round in 0..3 {
        for c in callers.iter_mut() {
            *c = step(&mut store, *c, "vaultA");
        }
        if round == 0 {
            assert!(callers.iter().all(|c| *c == Caller::Inserting));
        }
    }
    assert_eq!(callers.iter().filter(|c| **c == Caller::Created).count(), 1);
    assert_eq!(callers.iter().filter(|c| **c == Caller::Found).count(), 4);
    assert_eq!(store.len(), 1);
    assert_eq!(store.find_by_name("vaultA").unwrap().id, Some(1));
    assert!(same_text(&store.find_by_name("vaultA").unwrap().name, "vaultA"));
}

#[test]
fn callers_one_after_the_other_create_exactly_one_vault() {
    let mut store = VaultStore::new();
    let mut outcomes = Vec::new();
    for _ in 0..4 {
        let mut c = Caller::Start;
        while next_request(c) != Request::Nothing {
            c = step(&mut store, c, "vaultA");
        }
        outcomes.push(c);
    }
    assert_eq!(outcomes, vec![Caller::Created, Caller::Found, Caller::Found, Caller::Found]);
    assert_eq!(store.len(), 1);
}
