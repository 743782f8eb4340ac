use boreal::rclone::remotes::{
    authorization_failure, classify_remote, configure, detect, list_configured, reconnect, DetectedRemote,
    RemoteKind, RemoteSettings, RemoteState, SetupAction, SetupEvent, SetupStage,
};

const CLIENT: &str = "test.apps.googleusercontent.com";

fn settings(remote_type: &str, scope: &str, client_id: &str, token: &str) -> RemoteSettings {
    RemoteSettings {
        remote_type: Some(remote_type.into()),
        scope: Some(scope.into()),
        client_id: Some(client_id.into()),
        token: Some(token.into()),
    }
}

#[test]
fn uses_expected_remote_names_and_scopes() {
    assert_eq!(RemoteKind::MyDriveRw.name(), "my-drive-rw");
    assert_eq!(RemoteKind::MyDriveRw.scope(), "drive");
    assert_eq!(RemoteKind::MyDriveRo.name(), "my-drive-ro");
    assert_eq!(RemoteKind::MyDriveRo.scope(), "drive.readonly");
}

#[test]
fn recognizes_a_ready_remote() {
    let remote = settings("drive", "drive.readonly", CLIENT, "{\"refresh_token\":\"token\"}");
    assert!(matches!(classify_remote(&remote, CLIENT, RemoteKind::MyDriveRo), Ok(DetectedRemote::Ready)));
}

#[test]
fn rejects_a_conflicting_scope() {
    let remote = settings("drive", "drive", CLIENT, "token");
    let error = classify_remote(&remote, CLIENT, RemoteKind::MyDriveRo).err().expect("scope conflict should fail");
    assert!(error.contains("different Google access permissions"));
}

#[test]
fn conflict_messages_explain_recovery_without_credential_values() {
    for key in ["type", "scope", "client_id"] {
        let mut remote = settings("drive", "drive.readonly", CLIENT, "private-token");
        match key {
            "type" => remote.remote_type = Some("private-value".into()),
            "scope" => remote.scope = Some("private-value".into()),
            _ => remote.client_id = Some("private-value".into()),
        }
        let message = classify_remote(&remote, CLIENT, RemoteKind::MyDriveRo).err().unwrap();
        assert!(!message.contains("private-value"));
        assert!(!message.contains("private-token"));
        assert!(message.contains("my-drive-ro"));
        assert!(message.contains("Rename") || message.contains("Repair / reconnect"));
    }
}

#[test]
fn a_remote_without_a_token_needs_authorization() {
    let remote = settings("drive", "drive", CLIENT, "   ");
    assert!(matches!(classify_remote(&remote, CLIENT, RemoteKind::MyDriveRw), Ok(DetectedRemote::NeedsAuthorization)));
    assert!(matches!(detect(Ok(DetectedRemote::NeedsAuthorization)), RemoteState::NotConfigured));
    assert!(matches!(detect(Err("x".into())), RemoteState::Conflict(m) if m == "x"));
}

#[test]
fn authorization_errors_are_actionable_and_never_echo_oauth_output() {
    for (diagnostic, expected) in [
        ("Failed to read line: EOF", "terminal input"),
        ("bind: address already in use", "callback port"),
        ("invalid_client", "app credentials"),
        ("access_denied", "denied authorization"),
        ("dial tcp: no such host", "network connection"),
        ("unknown failure", "Google app setup"),
    ] {
        let stderr = format!("{diagnostic} refresh_token=private-token https://example.test/?code=private-code");
        let message = authorization_failure("client_secret=private-secret", &stderr, Some(1));
        assert!(message.contains(expected), "{message}");
        assert!(message.contains("exit code 1"));
        for secret in ["private-secret", "private-token", "private-code", "https://example.test"] {
            assert!(!message.contains(secret));
        }
    }
    assert!(authorization_failure("", "", None).ends_with("(Rclone was interrupted.)"));
}

#[test]
fn configured_remotes_are_read_from_the_listing() {
    let remotes = list_configured("my-drive-ro: drive\nbackup:  local \n").unwrap();
    assert_eq!(remotes.len(), 2);
    assert_eq!(remotes[0].name, "my-drive-ro");
    assert_eq!(remotes[0].backend, "drive");
    assert_eq!(remotes[1].backend, "local");
}

fn run_args(action: &SetupAction) -> Vec<String> {
    match action {
        SetupAction::Run { args, .. } => args.clone(),
        other => panic!("unexpected {other:?}"),
    }
}

#[test]
fn a_missing_remote_is_created_then_confirmed() {
    let (setup, action) = configure(RemoteKind::MyDriveRo, CLIENT.into(), "secret".into(), "/c/rclone.conf".into());
    assert!(matches!(action, SetupAction::Read));
    let (setup, action) = setup.step(SetupEvent::Read(Ok(None)));
    assert_eq!(setup.stage, SetupStage::Configuring);
    let args = run_args(&action);
    assert_eq!(&args[..4], &["config", "create", "my-drive-ro", "drive"]);
    assert!(args.contains(&"--obscure".to_string()));
    let (setup, action) = setup.step(SetupEvent::Finished { success: true, stdout: String::new(), stderr: String::new(), code: Some(0) });
    assert!(matches!(action, SetupAction::Read));
    let ready = settings("drive", "drive.readonly", CLIENT, "tok");
    let (setup, action) = setup.step(SetupEvent::Read(Ok(Some(ready))));
    assert_eq!(setup.stage, SetupStage::Finished);
    assert!(matches!(action, SetupAction::Finish(Ok(()))));
}

#[test]
fn new_and_unfinished_connections_do_not_require_terminal_input() {
    let (setup, _) = configure(RemoteKind::MyDriveRo, CLIENT.into(), "secret".into(), "/c".into());
    let unfinished = settings("drive", "drive.readonly", CLIENT, "");
    let (setup, action) = setup.step(SetupEvent::Read(Ok(Some(unfinished))));
    assert_eq!(run_args(&action), vec!["config", "reconnect", "my-drive-ro:", "--auto-confirm", "--config", "/c"]);
    let (_, action) = setup.step(SetupEvent::Finished {
        success: false,
        stdout: "synthetic-private-output".into(),
        stderr: String::new(),
        code: Some(1),
    });
    match action {
        SetupAction::Finish(Err(m)) => {
            assert!(m.contains("Google sign-in did not finish"));
            assert!(!m.contains("synthetic-private-output"));
        },
        other => panic!("unexpected {other:?}"),
    }
}

#[test]
fn reconnect_updates_only_requested_remote_and_hides_failed_oauth_output() {
    let (setup, _) = reconnect(RemoteKind::MyDriveRw, CLIENT.into(), "secret".into(), "/c".into());
    let existing = settings("drive", "drive", "old-client", "old-token");
    let (setup, action) = setup.step(SetupEvent::Read(Ok(Some(existing))));
    let args = run_args(&action);
    assert_eq!(&args[..3], &["config", "update", "my-drive-rw"]);
    assert!(matches!(action, SetupAction::Run { protect_always: true, .. }));
    let (setup, action) = setup.step(SetupEvent::Finished { success: true, stdout: String::new(), stderr: String::new(), code: Some(0) });
    assert_eq!(run_args(&action)[2], "my-drive-rw:");
    let (_, action) = setup.step(SetupEvent::Finished {
        success: false,
        stdout: String::new(),
        stderr: "sensitive-oauth-output".into(),
        code: Some(2),
    });
    match action {
        SetupAction::Finish(Err(m)) => {
            assert!(m.contains("sign-in did not finish"));
            assert!(!m.contains("sensitive-oauth-output"));
        },
        other => panic!("unexpected {other:?}"),
    }
}

#[test]
fn repairs_refuse_a_remote_of_another_provider() {
    let (setup, _) = reconnect(RemoteKind::MyDriveRo, CLIENT.into(), "s".into(), "/c".into());
    let (setup, action) = setup.step(SetupEvent::Read(Ok(Some(settings("s3", "", "", "")))));
    assert_eq!(setup.stage, SetupStage::Finished);
    match action {
        SetupAction::Finish(Err(m)) => assert!(m.contains("Rename that remote")),
        other => panic!("unexpected {other:?}"),
    }
}
