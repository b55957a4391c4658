use concur_server::auth::{bearer_token, jwt_middleware, Claims};
use concur_server::handshake::ProviderConfig;
use concur_server::models::file::File;
use concur_server::models::vault::Vault;
use concur_server::registry::{Phase, RegistryError};
use concur_server::routes::auth::{
    auth_page, get_client_id, redirect, redirect_done, render_login_page, start, start_at,
    start_deadline, sweep, sweep_at, token, StartStep, DONE_PAGE,
};
use concur_server::routes::file::{
    add_file, add_file_at, add_files, add_files_at, get_unsynced, settle_files, update_file,
    update_file_at, FileUpdateRequest, LastSync,
};
use concur_server::routes::vault::{save, settle_vault, VaultWrite};
use concur_server::routes::{AppError, ServerState};
use concur_server::vault_store::{InsertError, Outcome, VaultStore};

fn server() -> ServerState {
    ServerState::new(
        ProviderConfig {
            authorize_endpoint: "https://provider.example/authorize".to_string(),
            client_id: "app-1".to_string(),
        },
        60_000,
        30_000,
    )
}

fn file(vault_id: i32, path: &str, content: &str) -> File {
    File {
        id: None,
        vault_id,
        path: path.to_string(),
        content: content.to_string(),
        hash: String::new(),
        last_sync: 0,
    }
}

fn response(e: AppError) -> (u16, String) {
    e.into_response()
}

#[test]
fn errors_map_to_status_and_body() {
    assert_eq!(response(AppError::Validation("m".to_string())), (400, "m".to_string()));
    assert_eq!(response(AppError::NotFound("n".to_string())), (404, "n".to_string()));
    assert_eq!(response(AppError::CsrfMismatch), (400, "Bad Request".to_string()));
    assert_eq!(response(AppError::AlreadyDelivered), (409, "Token already delivered".to_string()));
    assert_eq!(response(AppError::UpstreamExchangeFailed("u".to_string())), (502, "u".to_string()));
    assert_eq!(
        response(AppError::Persistence("secret detail".to_string())),
        (500, "Internal Server Error".to_string())
    );
    assert_eq!(
        response(AppError::Unexpected("secret detail".to_string())),
        (500, "Internal Server Error".to_string())
    );
    assert_eq!(response(AppError::Timeout), (408, "Timed out waiting for the token".to_string()));
    assert_eq!(AppError::Persistence("secret detail".to_string()).log_detail(), "secret detail");
    assert_eq!(AppError::CsrfMismatch.log_detail(), "CSRF token mismatch");
    assert_eq!(response(AppError::from(RegistryError::NotFound)), (404, "No client ID found".to_string()));
    assert!(matches!(AppError::from(RegistryError::AlreadyDelivered), AppError::AlreadyDelivered));
    assert!(matches!(AppError::from(RegistryError::DuplicateId), AppError::Unexpected(_)));
    assert!(matches!(AppError::from(RegistryError::StateInUse), AppError::Unexpected(_)));
}

#[test]
fn bearer_token_is_what_follows_the_prefix() {
    assert_eq!(bearer_token(Some("Bearer abc.def")), "abc.def");
    assert_eq!(bearer_token(Some("Bearer ")), "");
    assert_eq!(bearer_token(Some("Bearer  x")), " x");
    assert_eq!(bearer_token(Some("bearer abc")), "");
    assert_eq!(bearer_token(Some("Bearer")), "");
    assert_eq!(bearer_token(Some("Basic abc")), "");
    assert_eq!(bearer_token(Some("")), "");
    assert_eq!(bearer_token(Some("Bearer h\u{e9}")), "h\u{e9}");
    assert_eq!(bearer_token(Some("\u{e9}\u{e9}\u{e9}\u{e9}\u{e9}\u{e9}\u{e9}x")), "");
    assert_eq!(bearer_token(None), "");
}

#[test]
fn guard_lets_decoded_claims_through_and_refuses_the_rest() {
    let claims = Claims { exp: 2, iat: 1, sub: "me".to_string() };
    let passed = jwt_middleware(Some(claims)).unwrap();
    assert_eq!(passed.sub, "me");
    assert_eq!(passed.exp, 2);
    assert_eq!(jwt_middleware(None).unwrap_err(), (401, "Invalid token".to_string()));
}

#[test]
fn login_flow_over_the_routes() {
    let mut s = server();
    let id = get_client_id(&mut s).unwrap().client_id;
    assert_eq!(id.chars().count(), 36);
    let page = auth_page(&mut s, Some(&id)).unwrap();
    let csrf = {
        let marker = "&state=";
        let at = page.find(marker).unwrap() + marker.len();
        page[at..at + 22].to_string()
    };
    assert_eq!(
        page,
        render_login_page(
            &id,
            &format!(
                "https://provider.example/authorize?response_type=code&client_id=app-1&state={}",
                csrf
            )
        )
    );
    assert!(page.contains(&format!("const clientId = \"{}\";", id)));
    assert!(matches!(start_at(&mut s, Some(&id), 0, 10), Ok(StartStep::Wait(10))));
    let x = redirect(&s, Some("the-code".to_string()), Some(&csrf)).unwrap();
    assert_eq!(x.session_id, id);
    assert_eq!(x.code, "the-code");
    let done = redirect_done(&mut s, &x.session_id, Ok("tok".to_string())).unwrap();
    assert_eq!(done, DONE_PAGE);
    match start_at(&mut s, Some(&id), 5, 10) {
        Ok(StartStep::Done(answer)) => assert_eq!(answer.access_token, "tok"),
        other => panic!("unexpected {:?}", other),
    }
    assert!(matches!(start_at(&mut s, Some(&id), 5, 10), Err(AppError::NotFound(_))));
}

#[test]
fn login_page_text() {
    let page = render_login_page("cid", "https://u/");
    assert!(page.starts_with("<!DOCTYPE html>"));
    assert!(page.contains("<title>Concur Auth</title>"));
    assert!(page.contains("const clientId = \"cid\";"));
    assert!(page.contains("window.localStorage.setItem(\"client_id\", clientId);"));
    assert!(page.contains("window.location = \"https://u/\";"));
    assert!(page.ends_with("</html>"));
    assert!(DONE_PAGE.contains("Successfully authenticated."));
}

#[test]
fn auth_routes_validate_their_fields() {
    let mut s = server();
    match auth_page(&mut s, None) {
        Err(AppError::Validation(m)) => assert_eq!(m, "No client ID in params"),
        other => panic!("unexpected {:?}", other),
    }
    assert!(matches!(auth_page(&mut s, Some("nobody")), Err(AppError::NotFound(_))));
    match start_at(&mut s, None, 0, 1) {
        Err(AppError::Validation(m)) => assert_eq!(m, "No client ID in params"),
        other => panic!("unexpected {:?}", other),
    }
    match redirect(&s, None, Some("x")) {
        Err(AppError::Validation(m)) => assert_eq!(m, "No code in params"),
        other => panic!("unexpected {:?}", other),
    }
    match redirect(&s, Some("c".to_string()), None) {
        Err(AppError::Validation(m)) => assert_eq!(m, "No state in params"),
        other => panic!("unexpected {:?}", other),
    }
    assert!(matches!(redirect(&s, Some("c".to_string()), Some("x")), Err(AppError::CsrfMismatch)));
    match token(&mut s, None, Some("t".to_string())) {
        Err(AppError::Validation(m)) => assert_eq!(m, "No client ID in params"),
        other => panic!("unexpected {:?}", other),
    }
    match token(&mut s, Some("c"), None) {
        Err(AppError::Validation(m)) => assert_eq!(m, "No token in params"),
        other => panic!("unexpected {:?}", other),
    }
    match token(&mut s, Some("c"), Some("t".to_string())) {
        Err(AppError::NotFound(m)) => assert_eq!(m, "No client ID found"),
        other => panic!("unexpected {:?}", other),
    }
}

#[test]
fn token_route_delivers_once() {
    let mut s = server();
    let id = get_client_id(&mut s).unwrap().client_id;
    assert!(token(&mut s, Some(&id), Some("t1".to_string())).is_ok());
    assert!(matches!(token(&mut s, Some(&id), Some("t2".to_string())), Err(AppError::AlreadyDelivered)));
    match start(&mut s, Some(&id), i64::MAX) {
        Ok(StartStep::Done(answer)) => assert_eq!(answer.access_token, "t1"),
        other => panic!("unexpected {:?}", other),
    }
}

#[test]
fn start_times_out_and_sweep_expires() {
    let mut s = server();
    s.client_ids.create_at("old".to_string(), 0).unwrap();
    assert!(matches!(start_at(&mut s, Some("old"), 10, 10), Err(AppError::Timeout)));
    assert!(matches!(start(&mut s, Some("old"), 0), Err(AppError::Timeout)));
    assert!(start_deadline(&s) > 1_600_000_000_000);
    sweep_at(&mut s, 60_000);
    assert_eq!(s.client_ids.phase("old"), Phase::Started);
    sweep_at(&mut s, 60_001);
    assert_eq!(s.client_ids.phase("old"), Phase::Gone);
    s.client_ids.create_at("ancient".to_string(), 0).unwrap();
    let fresh = get_client_id(&mut s).unwrap().client_id;
    sweep(&mut s);
    assert_eq!(s.client_ids.phase("ancient"), Phase::Gone);
    assert_eq!(s.client_ids.phase(&fresh), Phase::Started);
}

#[test]
fn vault_is_created_once_and_found_after() {
    let mut s = server();
    let (status, v) = save(&mut s, Vault { id: Some(99), name: "vaultA".to_string() }).unwrap();
    assert_eq!(status, 201);
    assert_eq!(v.id, Some(1));
    assert_eq!(v.name, "vaultA");
    for _ in 0..5 {
        let (status, v) = save(&mut s, Vault::named("vaultA".to_string())).unwrap();
        assert_eq!(status, 200);
        assert_eq!(v.id, Some(1));
    }
    let (status, b) = save(&mut s, Vault::named("vaultB".to_string())).unwrap();
    assert_eq!(status, 201);
    assert_eq!(b.id, Some(2));
    assert_eq!(s.vaults.len(), 2);
}

#[test]
fn vault_store_primitives() {
    let mut v = VaultStore::new();
    assert!(v.find_by_name("a").is_none());
    let a = v.insert("a".to_string()).unwrap();
    assert_eq!(a.id, Some(1));
    assert_eq!(v.insert("a".to_string()).unwrap_err(), InsertError::UniqueViolation);
    assert_eq!(v.find_by_name("a").unwrap().id, Some(1));
    assert!(v.contains_id(1));
    assert!(!v.contains_id(2));
    assert!(matches!(v.get_or_create("a"), Ok(Outcome::Found(_))));
    assert!(matches!(v.get_or_create("b"), Ok(Outcome::Created(_))));
    assert!(matches!(v.get_or_create(""), Ok(Outcome::Created(_))));
    assert_eq!(v.len(), 3);
    assert_eq!(a.duplicate().name, "a");
}

#[test]
fn writes_need_a_known_vault() {
    let mut s = server();
    match add_file_at(&mut s, file(1, "/a", "x"), 5) {
        Err(AppError::NotFound(m)) => assert_eq!(m, "No vault found"),
        other => panic!("unexpected {:?}", other),
    }
    assert!(matches!(
        update_file_at(&mut s, FileUpdateRequest { path: "/a".to_string(), file: file(1, "/a", "y") }, 5),
        Err(AppError::NotFound(_))
    ));
    assert_eq!(s.files.len(), 0);
}

#[test]
fn file_routes_write_and_list() {
    let mut s = server();
    save(&mut s, Vault::named("v".to_string())).unwrap();
    let a = add_file_at(&mut s, file(1, "/note.md", "hello"), 100).unwrap();
    assert_eq!(a.id, Some(1));
    assert_eq!(a.hash, "a430d84680aabd0b");
    let b = add_file_at(&mut s, file(1, "/note.md", "world"), 200).unwrap();
    assert_eq!(b.id, Some(1));
    assert_eq!(b.hash, "4f59ff5e730c8af3");
    assert!(b.last_sync > a.last_sync);
    let all = get_unsynced(&s, LastSync { last_sync: 199, vault_id: 1 }).unwrap().files;
    assert_eq!(all.len(), 1);
    assert_eq!(all[0].content, "world");
    assert!(get_unsynced(&s, LastSync { last_sync: 200, vault_id: 1 }).unwrap().files.is_empty());
    let (status, written) = update_file_at(
        &mut s,
        FileUpdateRequest { path: "/note.md".to_string(), file: file(1, "/moved.md", "again") },
        300,
    )
    .unwrap();
    assert_eq!(status, 200);
    let written = written.unwrap();
    assert_eq!(written.id, Some(1));
    assert_eq!(written.path, "/moved.md");
    assert_eq!(written.content, "again");
    assert_eq!(written.last_sync, 300);
    let listed = get_unsynced(&s, LastSync { last_sync: 200, vault_id: 1 }).unwrap().files;
    assert_eq!(listed.len(), 1);
    assert_eq!(listed[0].path, "/moved.md");
    assert_eq!(listed[0].content, "again");
    let missing = update_file_at(
        &mut s,
        FileUpdateRequest { path: "/none".to_string(), file: file(1, "/x", "x") },
        400,
    );
    let (status, written) = missing.unwrap();
    assert_eq!(status, 200);
    assert!(written.is_none());
    assert_eq!(s.files.len(), 1);
    let c = add_file(&mut s, file(1, "/c", "c")).unwrap();
    assert!(c.last_sync > 1_600_000_000_000);
    assert_eq!(update_file(&mut s, FileUpdateRequest { path: "/c".to_string(), file: file(1, "/c", "d") }).unwrap().0, 200);
    assert_eq!(s.files.get(1, "/c").unwrap().content, "d");
}

#[test]
fn batch_is_all_or_nothing() {
    let mut s = server();
    save(&mut s, Vault::named("v".to_string())).unwrap();
    add_file_at(&mut s, file(1, "/a", "old"), 1).unwrap();
    let bad = vec![file(1, "/a", "new"), file(1, "/b", "b"), file(2, "/c", "c")];
    assert!(matches!(add_files_at(&mut s, &bad, 2), Err(AppError::NotFound(_))));
    assert_eq!(s.files.len(), 1);
    assert_eq!(s.files.get(1, "/a").unwrap().content, "old");
    assert_eq!(s.files.get(1, "/a").unwrap().last_sync, 1);
    let good = vec![file(1, "/a", "new"), file(1, "/b", "b")];
    let records = add_files_at(&mut s, &good, 3).unwrap();
    assert_eq!(records.len(), 2);
    assert_eq!(records[0].path, "/a");
    assert_eq!(records[0].content, "new");
    assert_eq!(records[0].id, Some(1));
    assert_eq!(records[1].path, "/b");
    assert_eq!(records[1].id, Some(2));
    assert_eq!(s.files.len(), 2);
    assert_eq!(s.files.get(1, "/a").unwrap().content, "new");
    assert_eq!(s.files.get(1, "/b").unwrap().last_sync, 3);
    let (stamp, records) = add_files(&mut s, &vec![file(1, "/z", "z")]).unwrap();
    assert_eq!(records.len(), 1);
    assert_eq!(records[0].path, "/z");
    assert_eq!(records[0].last_sync, stamp);
    assert_eq!(s.files.get(1, "/z").unwrap().last_sync, stamp);
    assert!(matches!(add_files(&mut s, &vec![file(9, "/z", "z")]), Err(AppError::NotFound(_))));
}

#[test]
fn listing_of_an_empty_table_is_empty() {
    let mut s = server();
    let listed = get_unsynced(&s, LastSync { last_sync: 0, vault_id: 1 }).unwrap();
    assert!(listed.files.is_empty());
    save(&mut s, Vault::named("v".to_string())).unwrap();
    add_file_at(&mut s, file(1, "/a", "x"), 5).unwrap();
    assert!(get_unsynced(&s, LastSync { last_sync: 0, vault_id: 2 }).unwrap().files.is_empty());
    assert!(get_unsynced(&s, LastSync { last_sync: i64::MIN, vault_id: -3 }).unwrap().files.is_empty());
    assert!(get_unsynced(&s, LastSync { last_sync: 5, vault_id: 1 }).unwrap().files.is_empty());
    let listed = get_unsynced(&s, LastSync { last_sync: 4, vault_id: 1 }).unwrap().files;
    assert_eq!(listed.len(), 1);
    assert_eq!(listed[0].id, Some(1));
    assert_eq!(listed[0].path, "/a");
    assert_eq!(listed[0].content, "x");
    assert_eq!(listed[0].last_sync, 5);
}

#[test]
fn rewrite_over_the_routes_is_stamped_later() {
    let mut s = server();
    save(&mut s, Vault::named("v".to_string())).unwrap();
    let a = add_file_at(&mut s, file(1, "/note.md", "hello"), 100).unwrap();
    let b = add_file_at(&mut s, file(1, "/note.md", "world"), 100).unwrap();
    assert_eq!(a.last_sync, 100);
    assert_eq!(b.last_sync, 101);
    let seen = get_unsynced(&s, LastSync { last_sync: a.last_sync, vault_id: 1 }).unwrap().files;
    assert_eq!(seen.len(), 1);
    assert_eq!(seen[0].content, "world");
    let first = add_file(&mut s, file(1, "/quick.md", "1")).unwrap();
    let second = add_file(&mut s, file(1, "/quick.md", "2")).unwrap();
    assert!(second.last_sync > first.last_sync);
    update_file_at(
        &mut s,
        FileUpdateRequest { path: "/note.md".to_string(), file: file(1, "/note.md", "again") },
        7,
    )
    .unwrap();
    assert_eq!(s.files.get(1, "/note.md").unwrap().last_sync, 102);
}

#[test]
fn vault_ids_are_handed_out_once() {
    let mut s = server();
    let (_, a) = save(&mut s, Vault::named("a".to_string())).unwrap();
    let (_, b) = save(&mut s, Vault::named("b".to_string())).unwrap();
    let (_, again) = save(&mut s, Vault::named("a".to_string())).unwrap();
    let (_, c) = save(&mut s, Vault::named("c".to_string())).unwrap();
    assert_eq!(a.id, Some(1));
    assert_eq!(b.id, Some(2));
    assert_eq!(again.id, Some(1));
    assert_eq!(c.id, Some(3));
    assert_eq!(s.vaults.len(), 3);
}

#[test]
fn vaults_are_read_back_under_their_identifiers() {
    let mut v = VaultStore::new();
    assert!(v.restore(1, "a".to_string()));
    assert!(v.restore(3, "c".to_string()));
    assert!(!v.restore(3, "d".to_string()));
    assert!(!v.restore(4, "a".to_string()));
    assert!(!v.restore(0, "z".to_string()));
    assert!(!v.restore(i32::MAX, "z".to_string()));
    assert_eq!(v.len(), 2);
    assert_eq!(v.find_by_name("c").unwrap().id, Some(3));
    assert!(v.contains_id(3));
    assert!(!v.contains_id(2));
    let kept = v.duplicate();
    assert_eq!(v.insert("d".to_string()).unwrap().id, Some(4));
    assert!(v.restore(2, "b".to_string()));
    assert_eq!(v.insert("e".to_string()).unwrap().id, Some(5));
    assert_eq!(kept.len(), 2);
    assert!(kept.find_by_name("d").is_none());
}

#[test]
fn a_refused_file_write_is_undone() {
    let mut s = server();
    save(&mut s, Vault::named("v".to_string())).unwrap();
    add_file_at(&mut s, file(1, "/a", "old"), 1).unwrap();
    let kept = s.files.duplicate();
    add_files_at(&mut s, &vec![file(1, "/a", "new"), file(1, "/b", "b")], 2).unwrap();
    assert!(settle_files(&mut s, kept, Ok(())).is_ok());
    assert_eq!(s.files.len(), 2);
    assert_eq!(s.files.get(1, "/a").unwrap().content, "new");
    let kept = s.files.duplicate();
    add_file_at(&mut s, file(1, "/c", "c"), 3).unwrap();
    update_file_at(
        &mut s,
        FileUpdateRequest { path: "/a".to_string(), file: file(1, "/a", "newer") },
        4,
    )
    .unwrap();
    match settle_files(&mut s, kept, Err("disk full".to_string())) {
        Err(AppError::Persistence(m)) => assert_eq!(m, "disk full"),
        other => panic!("unexpected {:?}", other),
    }
    assert_eq!(s.files.len(), 2);
    assert!(s.files.get(1, "/c").is_none());
    assert_eq!(s.files.get(1, "/a").unwrap().content, "new");
    assert_eq!(s.files.get(1, "/a").unwrap().last_sync, 2);
    assert_eq!(add_file_at(&mut s, file(1, "/c", "c"), 5).unwrap().id, Some(3));
}

#[test]
fn a_vault_that_another_writer_created_is_adopted() {
    let mut s = server();
    save(&mut s, Vault::named("a".to_string())).unwrap();

    let kept = s.vaults.duplicate();
    let (status, created) = save(&mut s, Vault::named("b".to_string())).unwrap();
    assert_eq!(status, 201);
    let (status, vault) = settle_vault(&mut s, kept, created, VaultWrite::Inserted).unwrap();
    assert_eq!(status, 201);
    assert_eq!(vault.id, Some(2));
    assert_eq!(s.vaults.len(), 2);

    let kept = s.vaults.duplicate();
    let (_, created) = save(&mut s, Vault::named("c".to_string())).unwrap();
    assert_eq!(created.id, Some(3));
    let (status, vault) = settle_vault(&mut s, kept, created, VaultWrite::Taken(Some(7))).unwrap();
    assert_eq!(status, 200);
    assert_eq!(vault.id, Some(7));
    assert_eq!(vault.name, "c");
    assert_eq!(s.vaults.len(), 3);
    assert_eq!(s.vaults.find_by_name("c").unwrap().id, Some(7));
    assert!(!s.vaults.contains_id(3));
    let (status, next) = save(&mut s, Vault::named("d".to_string())).unwrap();
    assert_eq!(status, 201);
    assert_eq!(next.id, Some(8));
}

#[test]
fn a_refused_vault_insert_is_undone() {
    let mut s = server();
    save(&mut s, Vault::named("a".to_string())).unwrap();

    let kept = s.vaults.duplicate();
    let (_, created) = save(&mut s, Vault::named("b".to_string())).unwrap();
    match settle_vault(&mut s, kept, created, VaultWrite::Failed("no route".to_string())) {
        Err(AppError::Persistence(m)) => assert_eq!(m, "no route"),
        other => panic!("unexpected {:?}", other),
    }
    assert_eq!(s.vaults.len(), 1);
    assert!(s.vaults.find_by_name("b").is_none());

    let kept = s.vaults.duplicate();
    let (_, created) = save(&mut s, Vault::named("b".to_string())).unwrap();
    match settle_vault(&mut s, kept, created, VaultWrite::Taken(None)) {
        Err(AppError::Persistence(m)) => assert_eq!(m, "Vault was taken and then not found"),
        other => panic!("unexpected {:?}", other),
    }
    assert_eq!(s.vaults.len(), 1);

    let kept = s.vaults.duplicate();
    let (_, created) = save(&mut s, Vault::named("b".to_string())).unwrap();
    match settle_vault(&mut s, kept, created, VaultWrite::Taken(Some(1))) {
        Err(AppError::Persistence(m)) => assert_eq!(m, "Stored vault does not fit the table"),
        other => panic!("unexpected {:?}", other),
    }
    assert_eq!(s.vaults.len(), 1);
    assert_eq!(s.vaults.find_by_name("a").unwrap().id, Some(1));
    let (status, b) = save(&mut s, Vault::named("b".to_string())).unwrap();
    assert_eq!(status, 201);
    assert_eq!(b.id, Some(2));
}

#[test]
fn many_callers_get_one_vault() {
    let mut s = server();
    let mut created: u32 = 0;
    let mut found: u32 = 0;
    let mut n: u32 = 0;
    while n < 20 {
        let (status, vault) = save(&mut s, Vault::named("vaultA".to_string())).unwrap();
        assert_eq!(vault.id, Some(1));
        assert_eq!(vault.name, "vaultA");
        if status == 201 {
            created += 1;
        } else {
            assert_eq!(status, 200);
            found += 1;
        }
        n += 1;
    }
    assert_eq!(created, 1);
    assert_eq!(found, 19);
    assert_eq!(s.vaults.len(), 1);
}

#[test]
fn first_session_on_an_empty_server_is_opened() {
    let mut s = server();
    let answer = get_client_id(&mut s).unwrap();
    assert_eq!(answer.client_id.len(), 36);
    assert_eq!(s.client_ids.phase(&answer.client_id), Phase::Started);
    let second = get_client_id(&mut s).unwrap();
    assert_ne!(second.client_id, answer.client_id);
}
