use boreal::google::auth::{access_token, conf, AccessAction, AccessEvent, AccessStage, Credentials, Token, DRIVE_READ, DRIVE_WRITE};
use boreal::google::client::{path, validate, GoogleClientConfig, InstalledCredentials};

fn installed() -> InstalledCredentials {
    InstalledCredentials {
        client_id: "test.apps.googleusercontent.com".into(),
        client_secret: "synthetic-client".into(),
        project_id: Some("example".into()),
        auth_uri: "https://accounts.google.com/o/oauth2/auth".into(),
        token_uri: "https://oauth2.googleapis.com/token".into(),
        redirect_uris: vec![],
    }
}

#[test]
fn desktop_clients_need_every_setting() {
    let c = validate(Some(installed())).unwrap();
    assert_eq!(c.client_id, "test.apps.googleusercontent.com");
    assert_eq!(c.project_id.as_deref(), Some("example"));
    assert_eq!(validate(None).err().unwrap(), "Invalid Google Desktop client JSON");
    let mut i = installed();
    i.client_id = "someone-else".into();
    assert_eq!(validate(Some(i)).err().unwrap(), "Google client_id does not appear to be a valid OAuth Client ID");
    let mut i = installed();
    i.client_secret = " ".into();
    assert_eq!(validate(Some(i)).err().unwrap(), "Google client_secret is missing");
    let mut i = installed();
    i.token_uri.clear();
    assert_eq!(validate(Some(i)).err().unwrap(), "Google token_uri is missing");
}

#[test]
fn the_client_file_lives_in_the_conf_directory() {
    let dirs = vec![("SQLITE".to_string(), "/b/sqlite".to_string()), ("CONF".to_string(), "/b/conf".to_string())];
    assert_eq!(path(&dirs).unwrap(), "/b/conf/google-client.json");
    assert_eq!(conf(&dirs).unwrap(), "/b/conf");
    assert_eq!(path(&vec![]).unwrap_err(), "BOREAL CONF directory is not configured");
    assert_eq!(conf(&vec![]).unwrap_err(), "Google configuration directory is unavailable");
}

fn grant(expires_at: u64, scopes: &[&str]) -> Credentials {
    Credentials {
        client_id: "test.apps.googleusercontent.com".into(),
        subject: "account-one".into(),
        email: "me@example.test".into(),
        refresh_token: "synthetic-private-refresh".into(),
        access_token: "cached".into(),
        expires_at,
        scopes: scopes.iter().map(|s| s.to_string()).collect(),
    }
}

fn client() -> GoogleClientConfig {
    GoogleClientConfig { client_id: "test.apps.googleusercontent.com".into(), client_secret: "s".into(), project_id: None }
}

#[test]
fn a_current_token_is_used_without_contacting_google() {
    let (reading, action) = access_token(DRIVE_READ.into());
    assert!(matches!(action, AccessAction::Load));
    let (reading, action) = reading.step(AccessEvent::Loaded { saved: Ok(grant(10_000, &[DRIVE_READ])), client: Ok(client()), now: 1_000 });
    assert_eq!(reading.stage, AccessStage::Finished);
    assert!(matches!(action, AccessAction::Finish(Ok((t, 9_000))) if t == "cached"));
}

#[test]
fn expired_access_is_refreshed_once_and_saved_privately() {
    let (reading, _) = access_token(DRIVE_READ.into());
    let (reading, action) = reading.step(AccessEvent::Loaded { saved: Ok(grant(1_100, &[DRIVE_READ])), client: Ok(client()), now: 1_000 });
    match &action {
        AccessAction::Refresh(form) => {
            assert_eq!(form[2], ("refresh_token".to_string(), "synthetic-private-refresh".to_string()));
            assert_eq!(form[3], ("grant_type".to_string(), "refresh_token".to_string()));
        },
        other => panic!("unexpected {other:?}"),
    }
    let token = Token { access_token: "renewed".into(), refresh_token: "rotated-refresh".into(), scope: String::new(), expires_in: 3600 };
    let (reading, action) = reading.step(AccessEvent::Refreshed { response: Some((200, Some(token))), now: 1_000 });
    match &action {
        AccessAction::Save(c) => {
            assert_eq!(c.access_token, "renewed");
            assert_eq!(c.refresh_token, "rotated-refresh");
            assert_eq!(c.expires_at, 4_600);
        },
        other => panic!("unexpected {other:?}"),
    }
    let (_, action) = reading.step(AccessEvent::Saved { result: Ok(()), now: 1_600 });
    assert!(matches!(action, AccessAction::Finish(Ok((t, 3_000))) if t == "renewed"));
}

#[test]
fn refusals_and_lost_permissions_are_reported() {
    let (reading, _) = access_token(DRIVE_WRITE.into());
    let (_, action) = reading.step(AccessEvent::Loaded { saved: Ok(grant(10_000, &[DRIVE_READ])), client: Ok(client()), now: 0 });
    assert!(matches!(action, AccessAction::Finish(Err(m)) if m.contains("Additional Google permission")));
    let (reading, _) = access_token(DRIVE_READ.into());
    let (reading, _) = reading.step(AccessEvent::Loaded { saved: Ok(grant(0, &[DRIVE_READ])), client: Ok(client()), now: 0 });
    let (_, action) = reading.step(AccessEvent::Refreshed { response: Some((401, None)), now: 0 });
    assert!(matches!(action, AccessAction::Finish(Err(m)) if m.contains("expired or was revoked")));
    let (reading, _) = access_token(DRIVE_READ.into());
    let (_, action) = reading.step(AccessEvent::Loaded { saved: Err("Connect Google".into()), client: Ok(client()), now: 0 });
    assert!(matches!(action, AccessAction::Finish(Err(m)) if m == "Connect Google"));
}

#[test]
fn the_project_profile_lists_only_what_it_allows() {
    let config = boreal::google::client::GoogleClientConfig {
        client_id: "x.apps.googleusercontent.com".into(),
        client_secret: "s".into(),
        project_id: Some("p".into()),
    };
    let setup = boreal::google::auth::Setup { groups_deployment: "AKfy".into(), directory_admin: true, migration_access: true };
    let (installed, exported) = boreal::web::google_connection::project_profile(&config, &setup);
    assert_eq!(installed.client_id, "x.apps.googleusercontent.com");
    assert_eq!(installed.project_id.as_deref(), Some("p"));
    assert_eq!(installed.auth_uri, "https://accounts.google.com/o/oauth2/auth");
    assert_eq!(installed.token_uri, "https://oauth2.googleapis.com/token");
    assert_eq!(installed.redirect_uris, vec!["http://localhost".to_string()]);
    assert_eq!(exported.groups_deployment, "AKfy");
    assert!(exported.directory_admin);
    assert!(!exported.migration_access);
}
