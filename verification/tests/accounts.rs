use zephost::credentials::{bearer_token, hash_password, sign_in_name, sign_in_with, SignIn};
use zephost::models::{LoginRequest, WaitlistRequest};
use zephost::state::TaskState;

fn login(user: &str, password: &str) -> LoginRequest {
    LoginRequest { username: user.to_string(), password: password.to_string() }
}

fn is_session_token(token: &str) -> bool {
    let Some(id) = token.strip_prefix("zephost-token-") else { return false };
    let groups: Vec<&str> = id.split('-').collect();
    groups.iter().map(|g| g.len()).collect::<Vec<_>>() == vec![8, 4, 4, 4, 12]
        && id.chars().all(|c| c == '-' || c.is_ascii_digit() || ('a'..='f').contains(&c))
}

#[test]
fn login_requires_both_fields() {
    let mut state = TaskState::new();
    assert_eq!(state.login(login("  ", "pw"), true).unwrap_err(), "username and password are required");
    assert_eq!(state.login(login("ada", "  "), true).unwrap_err(), "username and password are required");
}

#[test]
fn unknown_user_needs_an_invite() {
    let mut state = TaskState::new();
    assert_eq!(state.login(login("ada", "secret"), false).unwrap_err(), "invite required");
}

#[test]
fn signup_then_token_grants_access() {
    let mut state = TaskState::new();
    let response = state.login(login(" ada ", "secret"), true).unwrap();
    assert!(is_session_token(&response.token));
    assert!(response.api_keys.is_empty());
    assert_eq!(state.user_for_access(Some(&response.token), None), Some("ada".to_string()));
    assert_eq!(state.user_for_access(Some("zephost-token-unknown"), None), None);
    assert_eq!(state.user_for_access(None, None), None);
}

#[test]
fn seeded_admin_logs_in_and_wrong_password_fails() {
    let mut state = TaskState::new();
    state.seed_admin("admin".to_string(), "change-me").unwrap();
    assert_eq!(state.login(login("admin", "wrong"), false).unwrap_err(), "invalid credentials");
    let ok = state.login(login("admin", "change-me"), false).unwrap();
    assert_eq!(state.user_for_access(Some(&ok.token), None), Some("admin".to_string()));
}

#[test]
fn api_keys_are_issued_and_recognised() {
    let mut state = TaskState::new();
    assert_eq!(state.create_api_key("no-such-token", None, 5).unwrap_err(), "unauthorized");
    let session = state.login(login("ada", "secret"), true).unwrap();
    let key = state.create_api_key(&session.token, Some("  ci  ".to_string()), 77).unwrap();
    assert!(key.key.starts_with("zpk_"));
    assert_eq!(key.key.len(), 36);
    assert!(key.key[4..].chars().all(|c| c.is_ascii_digit() || ('a'..='f').contains(&c)));
    assert_eq!(key.label, "ci");
    assert_eq!(key.created_at_ms, 77);
    let other = state.create_api_key(&session.token, None, 78).unwrap();
    assert_eq!(other.label, "default");
    assert_ne!(other.key, key.key);
    assert_eq!(state.user_for_access(None, Some(&key.key)), Some("ada".to_string()));
    assert_eq!(state.user_for_access(Some("stale"), Some(&other.key)), Some("ada".to_string()));
    assert_eq!(state.user_for_access(None, Some("zpk_unknown")), None);
    let again = state.login(login("ada", "secret"), false).unwrap();
    assert_eq!(again.api_keys.iter().map(|k| k.key.clone()).collect::<Vec<_>>(), vec![key.key, other.key]);
}

#[test]
fn waitlist_needs_an_email() {
    let mut state = TaskState::new();
    let bad = WaitlistRequest { name: None, email: "  ".to_string(), use_case: None };
    assert_eq!(state.join_waitlist(bad).unwrap_err(), "a valid email is required");
    let no_at = WaitlistRequest { name: None, email: "ops.zephost.dev".to_string(), use_case: None };
    assert_eq!(state.join_waitlist(no_at).unwrap_err(), "a valid email is required");
    let good = WaitlistRequest { name: Some("Ops".to_string()), email: "ops@zephost.dev".to_string(), use_case: None };
    assert!(state.join_waitlist(good).is_ok());
}

#[test]
fn bearer_tokens_are_read_from_the_header() {
    assert_eq!(bearer_token(Some("Bearer  zephost-token-1 ")), Some("zephost-token-1".to_string()));
    assert_eq!(bearer_token(Some("Basic abc")), None);
    assert_eq!(bearer_token(Some("Bearer")), None);
    assert_eq!(bearer_token(None), None);
}

#[test]
fn sign_in_name_trims_and_rejects_blank_fields() {
    assert_eq!(sign_in_name(&login("  ada \n", "pw")).unwrap(), "ada");
    assert_eq!(sign_in_name(&login("\t", "pw")).unwrap_err(), "username and password are required");
    assert_eq!(sign_in_name(&login("ada", " ")).unwrap_err(), "username and password are required");
}

#[test]
fn sign_in_against_a_stored_hash() {
    let stored = hash_password("correct horse").expect("hashing works");
    assert_ne!(stored, "correct horse");
    assert!(stored.starts_with("$2"));
    assert!(matches!(sign_in_with(&login("ada", "correct horse"), Some(stored.clone()), false), Ok(SignIn::Accepted)));
    assert_eq!(
        sign_in_with(&login("ada", "wrong horse"), Some(stored), true).err().unwrap(),
        "invalid credentials"
    );
    assert_eq!(
        sign_in_with(&login("ada", "pw"), Some("not a bcrypt hash".to_string()), true).err().unwrap(),
        "invalid credentials"
    );
}

#[test]
fn sign_in_of_an_unknown_user() {
    assert_eq!(sign_in_with(&login("bob", "pw"), None, false).err().unwrap(), "invite required");
    assert_eq!(
        sign_in_with(&login(" ", "pw"), None, true).err().unwrap(),
        "username and password are required"
    );
    let hash = match sign_in_with(&login(" bob ", "secret"), None, true) {
        Ok(SignIn::SignedUp(h)) => h,
        _ => panic!("public sign-up opens an account"),
    };
    assert!(matches!(sign_in_with(&login("bob", "secret"), Some(hash), false), Ok(SignIn::Accepted)));
}

#[test]
fn api_keys_belong_to_the_user_they_were_issued_to() {
    let mut state = TaskState::new();
    let ada = state.login(login("ada", "secret"), true).unwrap();
    let bob = state.login(login("bob", "hunter2"), true).unwrap();
    let ada_key = state.create_api_key(&ada.token, None, 1).unwrap();
    let bob_key = state.create_api_key(&bob.token, Some("bot".to_string()), 2).unwrap();
    assert_eq!(state.user_for_access(None, Some(&ada_key.key)), Some("ada".to_string()));
    assert_eq!(state.user_for_access(None, Some(&bob_key.key)), Some("bob".to_string()));
    assert_eq!(state.user_for_access(Some(&bob.token), Some(&ada_key.key)), Some("bob".to_string()));
}
