use simplesync::keyring::{
    clear_credentials_sync, has_credentials, load_credentials_sync, secret_from_lookup,
    store_credentials_sync, Credentials, SecretOp,
};

fn creds() -> Credentials {
    Credentials {
        server_url: "https://cloud.example.com".to_string(),
        username: "alice".to_string(),
        app_password: "pw".to_string(),
    }
}

#[test]
fn store_writes_three_labelled_secrets_in_order() {
    let mut s = store_credentials_sync(&creds());
    let mut seen = Vec::new();
    while let Some(op) = s.next_op() {
        match op {
            SecretOp::Store { attribute, label, value } => seen.push((attribute.clone(), label.clone(), value.clone())),
            _ => panic!("expected a store"),
        }
        s.record(true);
    }
    assert!(s.succeeded());
    assert_eq!(seen[0], ("server_url".to_string(), "SimpleSync server_url".to_string(), "https://cloud.example.com".to_string()));
    assert_eq!(seen[1].0, "username");
    assert_eq!(seen[2], ("app_password".to_string(), "SimpleSync app_password".to_string(), "pw".to_string()));
}

#[test]
fn store_stops_at_first_failure() {
    let mut s = store_credentials_sync(&creds());
    assert!(s.next_op().is_some());
    s.record(false);
    assert!(s.next_op().is_none());
    assert!(!s.succeeded());
}

#[test]
fn load_gives_back_stored_values() {
    let mut s = load_credentials_sync();
    let answers = ["https://cloud.example.com\n", "alice\n", "pw\n"];
    let mut i = 0;
    while let Some(op) = s.next_op() {
        assert!(matches!(op, SecretOp::Lookup { .. }));
        s.record_lookup(secret_from_lookup(true, answers[i]));
        i += 1;
    }
    let c = s.credentials().unwrap();
    assert_eq!(c.server_url, "https://cloud.example.com");
    assert_eq!(c.username, "alice");
    assert_eq!(c.app_password, "pw");
}

#[test]
fn load_fails_when_a_secret_is_missing() {
    let mut s = load_credentials_sync();
    s.record_lookup(Some("https://x".to_string()));
    s.record_lookup(secret_from_lookup(true, "  \n"));
    assert!(s.next_op().is_none());
    assert!(s.credentials().is_none());
    let mut h = has_credentials();
    h.record_lookup(secret_from_lookup(false, "x"));
    assert!(!h.succeeded());
}

#[test]
fn clear_removes_three_secrets() {
    let mut s = clear_credentials_sync();
    let mut n = 0;
    while let Some(op) = s.next_op() {
        assert!(matches!(op, SecretOp::Clear { .. }));
        s.record(true);
        n += 1;
    }
    assert_eq!(n, 3);
    assert!(s.succeeded());
}

#[test]
fn lookup_values() {
    assert_eq!(secret_from_lookup(true, "  v \n"), Some("v".to_string()));
    assert_eq!(secret_from_lookup(true, ""), None);
    assert_eq!(secret_from_lookup(false, "v"), None);
}

fn answer(
    mut s: simplesync::keyring::SecretSession,
    store: &[(&str, bool, &str)],
) -> simplesync::keyring::SecretSession {
    while let Some(op) = s.next_op() {
        let attribute = match op {
            SecretOp::Lookup { attribute } => attribute.clone(),
            _ => panic!("expected a lookup"),
        };
        let (_, ok, printed) = store.iter().find(|(a, _, _)| *a == attribute).copied().unwrap();
        s.record_lookup(secret_from_lookup(ok, printed));
    }
    s
}

#[test]
fn has_credentials_agrees_with_loading_them() {
    let stores: Vec<Vec<(&str, bool, &str)>> = vec![
        vec![("server_url", true, "https://c\n"), ("username", true, "bob"), ("app_password", true, "pw")],
        vec![("server_url", true, "https://c"), ("username", false, ""), ("app_password", true, "pw")],
        vec![("server_url", true, "https://c"), ("username", true, "bob"), ("app_password", true, "  \n")],
    ];
    for store in &stores {
        let has = answer(has_credentials(), store).succeeded();
        let loaded = answer(load_credentials_sync(), store).credentials();
        assert_eq!(has, loaded.is_some());
    }
    assert!(answer(has_credentials(), &stores[0]).succeeded());
    assert!(!answer(has_credentials(), &stores[2]).succeeded());
}
