use renaissance_contract::{session_ttl_ledgers, Address, SessionContract, SessionData, SessionError};

fn addr(key: &str) -> Address {
    Address::new(key.to_string())
}

fn actions(names: &[&str]) -> Vec<String> {
    names.iter().map(|n| n.to_string()).collect()
}

/// A registry with its admin set, as the contract tests set it up.
fn setup() -> (Address, SessionContract) {
    let mut client = SessionContract::new();
    let admin = addr("GADMIN");
    client.initialize(admin.clone()).unwrap();
    (admin, client)
}

// ── Whitelist: add ────────────────────────────────────────────────────────

#[test]
fn test_add_to_whitelist() {
    let (_admin, mut client) = setup();
    let user = addr("GUSER");
    assert!(!client.is_whitelisted(&user));
    client.add_to_whitelist(user.clone()).unwrap();
    assert!(client.is_whitelisted(&user));
}

// ── Whitelist: remove ─────────────────────────────────────────────────────

#[test]
fn test_remove_from_whitelist() {
    let (_admin, mut client) = setup();
    let user = addr("GUSER");
    client.add_to_whitelist(user.clone()).unwrap();
    assert!(client.is_whitelisted(&user));
    client.remove_from_whitelist(&user).unwrap();
    assert!(!client.is_whitelisted(&user));
}

// ── Session: whitelisted user can create session ──────────────────────────

#[test]
fn test_whitelisted_user_can_create_session() {
    let (_admin, mut client) = setup();
    let now = 0;
    let user = addr("GUSER");
    let session_key = addr("GSESSIONKEY");
    client.add_to_whitelist(user.clone()).unwrap();

    let expires_at = now + 3600;
    client
        .create_session(user.clone(), session_key.clone(), expires_at, actions(&["transfer"]), now)
        .unwrap();

    let data = client.get_session(&session_key).unwrap();
    assert_eq!(data.user, user);
    assert_eq!(data.expires_at, expires_at);
}

// ── Session: revoke ───────────────────────────────────────────────────────

#[test]
fn test_revoke_session() {
    let (_admin, mut client) = setup();
    let now = 0;
    let user = addr("GUSER");
    let session_key = addr("GSESSIONKEY");
    client.add_to_whitelist(user.clone()).unwrap();

    let expires_at = now + 3600;
    client
        .create_session(user.clone(), session_key.clone(), expires_at, actions(&["transfer"]), now)
        .unwrap();
    client.revoke_session(&user, &session_key).unwrap();
}

// ── Access control: whitelist changes go through ──────────────────────────

#[test]
fn test_whitelist_events_emitted() {
    let (_admin, mut client) = setup();
    let user = addr("GUSER");
    assert_eq!(client.add_to_whitelist(user.clone()), Ok(()));
    assert_eq!(client.remove_from_whitelist(&user), Ok(()));
}

// ── Full lifecycle ────────────────────────────────────────────────────────

#[test]
fn integration_full_session_lifecycle() {
    let now = 2_000_000;
    let (_admin, mut client) = setup();

    let user = addr("GUSER");
    let session_key = addr("GSESSIONKEY");
    let expires_at = 2_000_000 + 86_400; // 24 hours
    let allowed = actions(&["stake", "vote"]);
    client.add_to_whitelist(user.clone()).unwrap();

    // Create
    client.create_session(user.clone(), session_key.clone(), expires_at, allowed, now).unwrap();

    // Valid during session
    assert!(client.validate_session(&session_key, &"stake".to_string(), now));
    assert!(client.validate_session(&session_key, &"vote".to_string(), now));
    assert!(!client.validate_session(&session_key, &"transfer".to_string(), now));

    // Revoke
    client.revoke_session(&user, &session_key).unwrap();
    assert!(!client.validate_session(&session_key, &"stake".to_string(), now));
}

#[test]
fn integration_session_expires_by_timestamp() {
    let (_admin, mut client) = setup();

    let user = addr("GUSER");
    let session_key = addr("GSESSIONKEY");
    client.add_to_whitelist(user.clone()).unwrap();

    client
        .create_session(user.clone(), session_key.clone(), 2_000_000 + 3_600, actions(&["stake"]), 2_000_000)
        .unwrap();
    assert!(client.validate_session(&session_key, &"stake".to_string(), 2_000_000));

    assert!(!client.validate_session(&session_key, &"stake".to_string(), 2_000_000 + 3_601));
}

// ── Further cases ─────────────────────────────────────────────────────────

#[test]
fn session_non_whitelisted_user_is_refused() {
    let (_admin, mut client) = setup();
    let user = addr("GUSER");
    let session_key = addr("GSESSIONKEY");
    let err = client
        .create_session(user, session_key.clone(), 3600, actions(&["transfer"]), 0)
        .unwrap_err();
    assert_eq!(err, SessionError::NotWhitelisted);
    assert_eq!(err.message(), "caller is not whitelisted");
    assert_eq!(client.get_session(&session_key).unwrap_err(), SessionError::SessionNotFound);
}

#[test]
fn session_expiry_must_be_in_future() {
    let (_admin, mut client) = setup();
    let user = addr("GUSER");
    client.add_to_whitelist(user.clone()).unwrap();
    let err = client
        .create_session(user.clone(), addr("GKEY"), 100, actions(&[]), 100)
        .unwrap_err();
    assert_eq!(err, SessionError::ExpiryNotInFuture);
    assert_eq!(err.message(), "expires_at must be in the future");
}

#[test]
fn session_expires_exactly_at_expiry() {
    let (_admin, mut client) = setup();
    let user = addr("GUSER");
    let key = addr("GKEY");
    client.add_to_whitelist(user.clone()).unwrap();
    client.create_session(user, key.clone(), 500, actions(&["stake"]), 100).unwrap();
    assert!(client.validate_session(&key, &"stake".to_string(), 499));
    assert!(!client.validate_session(&key, &"stake".to_string(), 500));
}

#[test]
fn session_only_owner_revokes() {
    let (_admin, mut client) = setup();
    let owner = addr("GOWNER");
    let other = addr("GOTHER");
    let key = addr("GKEY");
    client.add_to_whitelist(owner.clone()).unwrap();
    client.create_session(owner.clone(), key.clone(), 500, actions(&["stake"]), 100).unwrap();
    let err = client.revoke_session(&other, &key).unwrap_err();
    assert_eq!(err, SessionError::NotSessionOwner);
    assert_eq!(err.message(), "not session owner");
    assert!(client.validate_session(&key, &"stake".to_string(), 200));
    assert_eq!(client.revoke_session(&owner, &addr("GMISSING")), Err(SessionError::SessionNotFound));
}

#[test]
fn session_registered_again_replaces_previous() {
    let (_admin, mut client) = setup();
    let user = addr("GUSER");
    let key = addr("GKEY");
    client.add_to_whitelist(user.clone()).unwrap();
    client.create_session(user.clone(), key.clone(), 500, actions(&["stake"]), 100).unwrap();
    client.create_session(user.clone(), key.clone(), 900, actions(&["vote"]), 100).unwrap();
    let data = client.get_session(&key).unwrap();
    assert_eq!(data.expires_at, 900);
    assert_eq!(data.allowed_actions, vec!["vote".to_string()]);
    assert!(!client.validate_session(&key, &"stake".to_string(), 200));
}

#[test]
fn session_admin_is_set_once_and_needed() {
    let mut client = SessionContract::new();
    assert!(client.admin().is_none());
    let err = client.add_to_whitelist(addr("GUSER")).unwrap_err();
    assert_eq!(err, SessionError::NotInitialized);
    assert_eq!(err.message(), "contract not initialized");
    assert_eq!(client.remove_from_whitelist(&addr("GUSER")), Err(SessionError::NotInitialized));
    client.initialize(addr("GADMIN")).unwrap();
    let again = client.initialize(addr("GOTHERADMIN")).unwrap_err();
    assert_eq!(again, SessionError::AlreadyInitialized);
    assert_eq!(again.message(), "already initialized");
    assert_eq!(client.admin(), Some(&addr("GADMIN")));
}

#[test]
fn session_whitelist_add_is_idempotent() {
    let (_admin, mut client) = setup();
    let user = addr("GUSER");
    client.add_to_whitelist(user.clone()).unwrap();
    client.add_to_whitelist(user.clone()).unwrap();
    assert_eq!(client.whitelist().len(), 1);
    client.remove_from_whitelist(&user).unwrap();
    assert!(!client.is_whitelisted(&user));
    // removing an address that is not there is accepted
    client.remove_from_whitelist(&user).unwrap();
}

#[test]
fn session_ttl_in_ledgers() {
    // one ledger every five seconds, at least 100 ledgers
    assert_eq!(session_ttl_ledgers(3600, 0), 720);
    assert_eq!(session_ttl_ledgers(2_000_000 + 86_400, 2_000_000), 17_280);
    assert_eq!(session_ttl_ledgers(100, 0), 100);
    assert_eq!(session_ttl_ledgers(10, 20), 100);
    // the ledger count is truncated to 32 bits
    assert_eq!(session_ttl_ledgers(5 * (1u64 << 32) + 5 * 200, 0), 200);
}

#[test]
fn session_from_parts() {
    let user = addr("GUSER");
    let data = SessionData {
        user: user.clone(),
        expires_at: 50,
        allowed_actions: actions(&["stake"]),
    };
    let client = SessionContract::from_parts(
        Some(addr("GADMIN")),
        vec![user.clone()],
        vec![(addr("GKEY"), data)],
    )
    .unwrap();
    assert!(client.is_whitelisted(&user));
    assert!(client.validate_session(&addr("GKEY"), &"stake".to_string(), 10));
    assert!(SessionContract::from_parts(None, vec![user.clone(), user.clone()], vec![]).is_none());
}
