use boreal::google::auth::{
    apply_refresh, callback_code, challenge, covers, credential_issue, requested_scopes, setup, Credentials,
    InventorySettings, Setup, Token, DIRECTORY_GROUPS, DRIVE_READ, DRIVE_WRITE, GROUPS,
};

#[test]
fn selected_capabilities_share_a_grant_without_admin_scopes() {
    let mut settings = InventorySettings::default();
    settings.directory_sheet_enabled = true;
    settings.google_groups_enabled = true;
    let mut setup = Setup::default();
    let scopes = requested_scopes(&settings, &setup);
    assert!(scopes.contains(&DRIVE_READ.into()));
    assert!(scopes.contains(&GROUPS.into()));
    assert!(!scopes.contains(&DIRECTORY_GROUPS.into()));
    setup.migration_access = true;
    let scopes = requested_scopes(&settings, &setup);
    assert!(scopes.contains(&DRIVE_WRITE.into()));
    assert!(!scopes.contains(&DRIVE_READ.into()));
    setup.directory_admin = true;
    assert!(requested_scopes(&settings, &setup).contains(&DIRECTORY_GROUPS.into()));
    setup.groups_deployment = "https://evil.invalid".into();
    assert!(setup.validate().is_err());
}

fn saved() -> Credentials {
    Credentials {
        client_id: "test.apps.googleusercontent.com".into(),
        subject: "account-one".into(),
        email: "me@example.test".into(),
        refresh_token: "synthetic-private-refresh".into(),
        access_token: "synthetic-access".into(),
        expires_at: 1_000 + 3600,
        scopes: vec![DRIVE_READ.into(), GROUPS.into()],
    }
}

#[test]
fn authorization_refresh_retains_identity_and_handles_scope_loss() {
    let mut saved = saved();
    assert!(credential_issue(&saved, "new-client", &vec![DRIVE_READ]).is_some());
    let client = saved.client_id.clone();
    assert!(credential_issue(&saved, &client, &vec![DRIVE_WRITE]).is_some());
    apply_refresh(
        &mut saved,
        Token { access_token: "new-access".into(), refresh_token: String::new(), scope: String::new(), expires_in: 3600 },
        1_000,
    )
    .unwrap();
    assert_eq!(saved.refresh_token, "synthetic-private-refresh");
    assert_eq!(saved.subject, "account-one");
    assert!(covers(&saved.scopes, GROUPS));
    apply_refresh(
        &mut saved,
        Token { access_token: "new-access".into(), refresh_token: "rotated".into(), scope: GROUPS.into(), expires_in: 3600 },
        1_000,
    )
    .unwrap();
    assert!(!covers(&saved.scopes, DRIVE_READ));
    assert_eq!(saved.refresh_token, "rotated");
}

#[test]
fn pkce_callbacks_reject_wrong_state_and_duplicate_codes() {
    assert_eq!(
        challenge("dBjftJeZ4CVP-mB92K27uhbUJU1p1r_wW1gFWFOEjXk"),
        "E9Melhoa2OwvFrEMTJguCHaoeK1t8URWbuGJSstw-cM"
    );
    assert_eq!(callback_code("/?state=s&code=c", "s").unwrap(), "c");
    for url in ["/?state=wrong&code=c", "/?state=s&code=a&code=b", "/?state=s&error=access_denied"] {
        assert!(callback_code(url, "s").is_err());
    }
}

#[test]
fn fresh_setups_never_default_to_directory_queries() {
    assert!(!setup(None).unwrap().directory_admin);
    assert!(setup(Some(None)).is_err());
}

#[test]
fn a_refresh_without_lifetime_is_refused_and_changes_nothing() {
    let mut saved = saved();
    let before = saved.clone();
    let r = apply_refresh(
        &mut saved,
        Token { access_token: "x".into(), refresh_token: "y".into(), scope: String::new(), expires_in: 0 },
        5,
    );
    assert_eq!(r, Err("Invalid Google authorization response"));
    assert_eq!(saved.access_token, before.access_token);
    assert_eq!(saved.refresh_token, before.refresh_token);
    assert_eq!(saved.expires_at, before.expires_at);
}

#[test]
fn a_refresh_saturates_the_expiry() {
    let mut saved = saved();
    apply_refresh(
        &mut saved,
        Token { access_token: "x".into(), refresh_token: String::new(), scope: "a  b".into(), expires_in: u64::MAX },
        10,
    )
    .unwrap();
    assert_eq!(saved.expires_at, u64::MAX);
    assert_eq!(saved.scopes, vec!["a".to_string(), "b".to_string()]);
}

#[test]
fn full_drive_covers_read_only_drive() {
    assert!(covers(&vec![DRIVE_WRITE.to_string()], DRIVE_READ));
    assert!(!covers(&vec![DRIVE_READ.to_string()], DRIVE_WRITE));
}
