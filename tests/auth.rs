use ndax_client::exchange_manager::ExchangeManager;
use ndax_client::order_manager::{sign, OrderManager};

#[test]
fn signature_matches_hmac_sha256_vector() {
    // key "Jefe", message "what do ya want for nothing?"
    let s = sign("what do ya want ", "for nothing?", "", "Jefe");
    assert_eq!(s, "5bdcc146bf60754e6a042426089575c75a003f089d2739839dec58b964ec3843");
}

#[test]
fn signature_is_deterministic() {
    let a = sign("1718003785385", "42", "key", "secret");
    let b = sign("1718003785385", "42", "key", "secret");
    assert_eq!(a, b);
    assert_eq!(a.len(), 64);
    assert!(a.chars().all(|c| c.is_ascii_hexdigit() && !c.is_ascii_uppercase()));
}

#[test]
fn signature_changes_with_each_input() {
    let base = sign("1718003785385", "42", "key", "secret");
    assert_ne!(base, sign("1718003785386", "42", "key", "secret"));
    assert_ne!(base, sign("1718003785385", "43", "key", "secret"));
    assert_ne!(base, sign("1718003785385", "42", "kez", "secret"));
    assert_ne!(base, sign("1718003785385", "42", "key", "secreu"));
}

fn manager() -> OrderManager {
    OrderManager::new("https://example.test/AP/", "key", "secret", "42", "alice", "7")
}

#[test]
fn auth_headers_for_a_nonce() {
    let h = manager().auth_headers_at("1000");
    let expected = vec![
        ("Nonce".to_string(), "1000".to_string()),
        ("APIKey".to_string(), "key".to_string()),
        ("Signature".to_string(), sign("1000", "42", "key", "secret")),
        ("UserId".to_string(), "42".to_string()),
    ];
    assert_eq!(h, expected);
}

#[test]
fn generated_auth_dict_has_fresh_nonce() {
    let h = manager().generate_auth_dict().unwrap();
    assert_eq!(h.len(), 4);
    assert_eq!(h[0].0, "Nonce");
    assert!(h[0].1.chars().all(|c| c.is_ascii_digit()));
    assert_eq!(h[2].1, sign(&h[0].1, "42", "key", "secret"));
}

#[test]
fn requests_of_the_endpoints() {
    let m = manager();
    let r = m.authenticate("5");
    assert_eq!(r.url, "https://example.test/AP/AuthenticateUser");
    assert_eq!(
        r.query,
        vec![
            ("APIKey".to_string(), "key".to_string()),
            ("Signature".to_string(), "42".to_string()),
            ("UserId".to_string(), "alice".to_string()),
            ("Nonce".to_string(), "5".to_string()),
        ]
    );
    assert_eq!(r.headers[0], ("Content-Type".to_string(), "application/json".to_string()));
    assert_eq!(r.headers.len(), 5);
    let c = m.cancel_all_orders("5");
    assert_eq!(c.url, "https://example.test/AP/CancelAllOrders");
    assert_eq!(c.query, vec![("OMSId".to_string(), "1".to_string()), ("AccountId".to_string(), "7".to_string())]);
    let o = m.get_open_orders("5");
    assert_eq!(o.url, "https://example.test/AP/GetOpenOrders");
    let a = m.get_account_id("5");
    assert_eq!(a.url, "https://example.test/AP/GetUserAccountInfos");
    assert_eq!(a.query[2], ("UserName".to_string(), "alice".to_string()));
    let assets = ExchangeManager::new("https://example.test/AP/").get_assets();
    assert_eq!(assets.url, "https://example.test/AP/Assets");
    assert!(assets.headers.is_empty());
    assert_eq!(m.get_headers().len(), 1);
}
