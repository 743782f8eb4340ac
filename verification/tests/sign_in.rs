use boreal::google::auth::{authorization_url, sign_in, Connection, Identity, SignInAction, SignInEvent, SignInStage, Token};
use boreal::google::client::GoogleClientConfig;

fn config() -> GoogleClientConfig {
    GoogleClientConfig { client_id: "id.apps".into(), client_secret: "secret".into(), project_id: None }
}

fn value<'a>(pairs: &'a [(String, String)], key: &str) -> &'a str {
    pairs.iter().find(|(k, _)| k == key).map(|(_, v)| v.as_str()).unwrap()
}

#[test]
fn sign_in_without_client_stops_at_once() {
    let (flow, action) = sign_in(None, vec![]);
    assert_eq!(flow.stage, SignInStage::Finished);
    assert!(matches!(action, SignInAction::Finish(Err(m)) if m == "Configure your Google Desktop Client ID first"));
}

#[test]
fn sign_in_runs_from_callback_to_saved_grant() {
    let scopes = vec!["openid".to_string(), "email".to_string()];
    let (flow, action) = sign_in(Some(config()), scopes);
    assert!(matches!(action, SignInAction::Listen));
    let (flow, action) = flow.step(SignInEvent::Listening { port: Some(8123) });
    let query = match action {
        SignInAction::Open(q) => q,
        other => panic!("{other:?}"),
    };
    assert_eq!(value(&query, "redirect_uri"), "http://127.0.0.1:8123/");
    assert_eq!(value(&query, "scope"), "openid email");
    assert_eq!(value(&query, "client_id"), "id.apps");
    assert_eq!(value(&query, "code_challenge_method"), "S256");
    let url = authorization_url(&query).unwrap();
    assert!(url.starts_with("https://accounts.google.com/o/oauth2/v2/auth?client_id=id.apps&redirect_uri=http%3A%2F%2F127.0.0.1%3A8123%2F"));
    assert!(url.contains("&scope=openid+email&"));
    let state = value(&query, "state").to_string();
    assert_eq!(state, flow.state);
    assert_eq!(state.len(), 43);
    assert_ne!(flow.state, flow.verifier);

    let (flow, action) = flow.step(SignInEvent::Opened { opened: true, clock: 1_000 });
    assert_eq!(flow.deadline, 181_000);
    assert!(matches!(action, SignInAction::Tick { pause: false }));
    let (flow, action) = flow.step(SignInEvent::Ticked { canceled: false, clock: 2_000 });
    assert!(matches!(action, SignInAction::Accept));
    let (flow, action) = flow.step(SignInEvent::Accepted { connection: Connection::Waiting });
    assert!(matches!(action, SignInAction::Tick { pause: true }));
    let (flow, _) = flow.step(SignInEvent::Ticked { canceled: false, clock: 3_000 });
    let (flow, action) =
        flow.step(SignInEvent::Accepted { connection: Connection::Request("GET /favicon.ico HTTP/1.1\r\n".into()) });
    assert!(matches!(action, SignInAction::Tick { pause: false }));
    let (flow, _) = flow.step(SignInEvent::Ticked { canceled: false, clock: 4_000 });
    let line = format!("GET /?state={state}&code=4%2Fabc HTTP/1.1\r\n");
    let (flow, action) = flow.step(SignInEvent::Accepted { connection: Connection::Request(line) });
    match action {
        SignInAction::Answer(response) => {
            assert!(response.starts_with("HTTP/1.1 200 OK\r\n"));
            assert!(response.ends_with("Google sign-in received. Return to Boreal to finish connecting."));
        }
        other => panic!("{other:?}"),
    }
    let (flow, action) = flow.step(SignInEvent::Answered);
    let form = match action {
        SignInAction::Exchange(f) => f,
        other => panic!("{other:?}"),
    };
    assert_eq!(value(&form, "code"), "4/abc");
    assert_eq!(value(&form, "grant_type"), "authorization_code");
    assert_eq!(value(&form, "client_secret"), "secret");
    assert_eq!(value(&form, "code_verifier"), flow.verifier);
    assert_eq!(value(&form, "redirect_uri"), "http://127.0.0.1:8123/");

    let token = Token { access_token: "at".into(), refresh_token: "rt".into(), scope: "openid email".into(), expires_in: 3600 };
    let (flow, action) = flow.step(SignInEvent::Exchanged { response: Some((200, Some(token))) });
    assert!(matches!(action, SignInAction::Identify(ref a) if a == "at"));
    let identity = Identity { subject: "42".into(), email: "a@example.org".into(), email_verified: true };
    let (flow, action) = flow.step(SignInEvent::Identified { response: Some((200, Some(identity))), canceled: false, now: 100 });
    let grant = match action {
        SignInAction::Save(c) => c,
        other => panic!("{other:?}"),
    };
    assert_eq!(grant.client_id, "id.apps");
    assert_eq!(grant.subject, "42");
    assert_eq!(grant.email, "a@example.org");
    assert_eq!(grant.refresh_token, "rt");
    assert_eq!(grant.expires_at, 3700);
    assert_eq!(grant.scopes, vec!["openid".to_string(), "email".to_string()]);
    let (flow, action) = flow.step(SignInEvent::Saved { result: Ok(()) });
    assert_eq!(flow.stage, SignInStage::Finished);
    assert!(matches!(action, SignInAction::Finish(Ok(()))));
}

fn waiting() -> boreal::google::auth::SignIn {
    let (flow, _) = sign_in(Some(config()), vec!["openid".to_string()]);
    let (flow, _) = flow.step(SignInEvent::Listening { port: Some(9000) });
    let (flow, _) = flow.step(SignInEvent::Opened { opened: true, clock: 0 });
    flow
}

fn ended(action: SignInAction) -> String {
    match action {
        SignInAction::Finish(Err(m)) => m,
        other => panic!("{other:?}"),
    }
}

#[test]
fn sign_in_stops_on_timeout_cancellation_and_refused_callbacks() {
    let (_, action) = waiting().step(SignInEvent::Ticked { canceled: false, clock: 180_001 });
    assert_eq!(ended(action), "Google sign-in timed out; try connecting again");
    let (_, action) = waiting().step(SignInEvent::Ticked { canceled: true, clock: 5 });
    assert_eq!(ended(action), "Google sign-in canceled during shutdown");
    let (flow, _) = waiting().step(SignInEvent::Ticked { canceled: false, clock: 180_000 });
    let (flow, action) =
        flow.step(SignInEvent::Accepted { connection: Connection::Request("GET /?state=wrong&code=x HTTP/1.1".into()) });
    match action {
        SignInAction::Answer(r) => assert!(r.ends_with("Sign-in callback was not accepted. Return to Boreal and try again.")),
        other => panic!("{other:?}"),
    }
    let (_, action) = flow.step(SignInEvent::Answered);
    assert_eq!(ended(action), "Google sign-in state did not match");
    let (flow, _) = waiting().step(SignInEvent::Ticked { canceled: false, clock: 1 });
    let (_, action) = flow.step(SignInEvent::Accepted { connection: Connection::Failed });
    assert_eq!(ended(action), "Google sign-in callback failed");
    let (_, action) = sign_in(Some(config()), vec![]).0.step(SignInEvent::Listening { port: None });
    assert_eq!(ended(action), "Unable to start Google sign-in callback");
}

#[test]
fn sign_in_checks_the_grant_and_the_identity() {
    let run_to_exchange = || {
        let flow = waiting();
        let (flow, _) = flow.step(SignInEvent::Ticked { canceled: false, clock: 1 });
        let line = format!("GET /?code=c&state={} HTTP/1.1", flow.state);
        let (flow, _) = flow.step(SignInEvent::Accepted { connection: Connection::Request(line) });
        flow.step(SignInEvent::Answered).0
    };
    let (_, action) = run_to_exchange().step(SignInEvent::Exchanged { response: None });
    assert_eq!(ended(action), "Google token exchange could not connect");
    let (_, action) = run_to_exchange().step(SignInEvent::Exchanged { response: Some((400, None)) });
    assert_eq!(ended(action), "Google sign-in could not be completed; reconnect");
    let (_, action) = run_to_exchange().step(SignInEvent::Exchanged { response: Some((200, None)) });
    assert_eq!(ended(action), "Invalid Google sign-in response");
    let no_refresh = Token { access_token: "at".into(), refresh_token: String::new(), scope: String::new(), expires_in: 1 };
    let (_, action) = run_to_exchange().step(SignInEvent::Exchanged { response: Some((200, Some(no_refresh))) });
    assert_eq!(ended(action), "Google did not grant offline access. Connect again and approve access.");
    let token = || Token { access_token: "at".into(), refresh_token: "rt".into(), scope: "s".into(), expires_in: 1 };
    let identified = |identity: Option<Identity>, canceled: bool| {
        let (flow, _) = run_to_exchange().step(SignInEvent::Exchanged { response: Some((200, Some(token()))) });
        ended(flow.step(SignInEvent::Identified { response: Some((200, identity)), canceled, now: 0 }).1)
    };
    assert_eq!(identified(None, false), "Invalid Google account identity response");
    let unverified = Identity { subject: "1".into(), email: "e".into(), email_verified: false };
    assert_eq!(identified(Some(unverified), false), "Google account email is not verified");
    let verified = Identity { subject: "1".into(), email: "e".into(), email_verified: true };
    assert_eq!(identified(Some(verified), true), "Google connection canceled; previous authorization retained");
}
