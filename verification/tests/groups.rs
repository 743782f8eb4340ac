use boreal::google::groups::{api_error_message, ApiErrorBody};

fn body(reasons: &[&str], message: Option<&str>) -> ApiErrorBody {
    ApiErrorBody { reasons: reasons.iter().map(|r| r.to_string()).collect(), message: message.map(|m| m.to_string()) }
}

#[test]
fn directory_denials_distinguish_setup_causes_without_disclosing_provider_data() {
    for (b, expected) in [
        (body(&["forbidden"], Some("Not Authorized to access this resource/api: private-account@example.test")), "Admin API privileges"),
        (body(&["SERVICE_DISABLED"], Some("private-project")), "Admin SDK API is disabled"),
        (body(&["accessNotConfigured"], None), "Admin SDK API is disabled"),
        (body(&["ACCESS_TOKEN_SCOPE_INSUFFICIENT"], None), "missing required scopes"),
        (body(&["insufficientPermissions"], None), "missing required scopes"),
        (body(&["domainPolicy"], None), "Workspace policy"),
        (body(&["rateLimitExceeded"], None), "rate limit"),
        (body(&[], Some("unknown private-provider-message")), "does not identify"),
        (body(&[], None), "does not identify"),
    ] {
        let message = api_error_message(403, &b);
        assert!(message.contains(expected), "{message}");
        assert!(!message.contains("private-"));
    }
}

#[test]
fn expired_directory_authorization_asks_to_reconnect() {
    assert!(api_error_message(401, &body(&[], None)).contains("reconnect Google Groups"));
}
