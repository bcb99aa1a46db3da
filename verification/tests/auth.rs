use monitaur::auth::{
    auth_gate, login, setup_admin, token_expiry_cutoff, token_verdict, validate_new_password,
    AuthGate, TOKEN_TTL_SECS,
};

#[test]
fn new_password_length_is_checked_in_bytes() {
    let e = validate_new_password("short7!").unwrap_err();
    assert_eq!(e.status, 400);
    assert_eq!(e.message, "Password must be at least 8 characters");
    assert!(validate_new_password("eight888").is_ok());
    assert!(validate_new_password(&"x".repeat(128)).is_ok());
    let e = validate_new_password(&"x".repeat(129)).unwrap_err();
    assert_eq!(e.status, 400);
    assert_eq!(e.message, "Password must not exceed 128 characters");
    // four two-byte characters make eight bytes
    assert!(validate_new_password("éééé").is_ok());
    assert!(validate_new_password("ééé").is_err());
}

#[test]
fn setup_refuses_a_second_admin_after_checking_length() {
    let e = setup_admin("long enough", true).unwrap_err();
    assert_eq!(e.status, 409);
    assert_eq!(e.message, "Admin account already exists");
    let e = setup_admin("short", true).unwrap_err();
    assert_eq!(e.status, 400);
}

#[test]
fn setup_password_logs_in_and_others_do_not() {
    let grant = setup_admin("correct horse", false).unwrap();
    assert_eq!(grant.token.len(), 36);
    assert!(grant.password_hash.starts_with("$argon2id$"));
    let token = login("correct horse", Some(grant.password_hash.clone())).unwrap();
    assert_eq!(token.len(), 36);
    assert_ne!(token, grant.token);
    let e = login("battery staple", Some(grant.password_hash)).unwrap_err();
    assert_eq!(e.status, 401);
    assert_eq!(e.message, "Invalid password");
}

#[test]
fn login_without_account_or_with_corrupt_hash() {
    let e = login("anything", None).unwrap_err();
    assert_eq!(e.status, 401);
    assert_eq!(e.message, "No admin account configured");
    let e = login("anything", Some("not a phc string".to_string())).unwrap_err();
    assert_eq!(e.status, 500);
    assert_eq!(e.message, "Corrupted password hash");
}

#[test]
fn gate_reads_bearer_tokens() {
    assert!(matches!(auth_gate(false, None), AuthGate::Open));
    match auth_gate(true, Some("Bearer abc-123")) {
        AuthGate::Check(t) => assert_eq!(t, "abc-123"),
        other => panic!("unexpected {:?}", other),
    }
    match auth_gate(true, Some("Basic abc")) {
        AuthGate::Refuse(e) => {
            assert_eq!(e.status, 401);
            assert_eq!(e.message, "Missing Authorization header");
        }
        other => panic!("unexpected {:?}", other),
    }
    assert!(matches!(auth_gate(true, None), AuthGate::Refuse(_)));
    match auth_gate(true, Some("Bearer ")) {
        AuthGate::Check(t) => assert_eq!(t, ""),
        other => panic!("unexpected {:?}", other),
    }
}

#[test]
fn token_lookup_verdicts() {
    assert!(token_verdict(true).is_ok());
    let e = token_verdict(false).unwrap_err();
    assert_eq!(e.status, 401);
    assert_eq!(e.message, "Invalid token");
}

#[test]
fn tokens_live_seven_days() {
    assert_eq!(TOKEN_TTL_SECS, 7 * 24 * 3600);
    assert_eq!(token_expiry_cutoff(1_000_000), 395_200);
}

fn is_v4_uuid(s: &str) -> bool {
    let b: Vec<char> = s.chars().collect();
    b.len() == 36
        && b.iter().enumerate().all(|(k, c)| {
            if [8, 13, 18, 23].contains(&k) {
                *c == '-'
            } else {
                c.is_ascii_digit() || ('a'..='f').contains(c)
            }
        })
        && b[14] == '4'
        && ['8', '9', 'a', 'b'].contains(&b[19])
}

#[test]
fn setup_succeeds_for_every_acceptable_password() {
    for pw in ["eight888".to_string(), "x".repeat(128), "éééé".to_string()] {
        let grant = setup_admin(&pw, false).unwrap();
        assert!(is_v4_uuid(&grant.token));
        assert!(login(&pw, Some(grant.password_hash)).is_ok());
    }
}
