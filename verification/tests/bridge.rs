use boreal::google::auth::{DRIVE_READ, DRIVE_WRITE};
use boreal::google::bridge::{
    bridge_config, bridge_scope, bridge_token, check_request_headers, config_file_name, form_pairs, overrides_account,
    proxy_bypass, replace_config, token_endpoint, token_reply, token_request_ok, writes,
};

fn strings(v: &[&str]) -> Vec<String> {
    v.iter().map(|s| s.to_string()).collect()
}

#[test]
fn writing_commands_need_migration_access() {
    assert!(writes(&strings(&["copy", "my-drive-ro:a", "my-drive-rw,root_folder_id=x:b"])));
    assert!(!writes(&strings(&["backend", "drives", "my-drive-ro:"])));
    assert_eq!(bridge_scope(true, true).unwrap(), DRIVE_WRITE);
    assert_eq!(bridge_scope(false, false).unwrap(), DRIVE_READ);
    assert_eq!(bridge_scope(true, false).unwrap_err(), "Enable migration write access in Settings → Google connection first.");
}

#[test]
fn broker_is_private_account_bound_and_preserves_legacy_config() {
    let endpoint = token_endpoint(4242);
    assert_eq!(endpoint, "http://127.0.0.1:4242/token");
    let token = bridge_token("local-secret");
    assert_eq!(
        token,
        "{\"access_token\":\"pending\",\"expiry\":\"1970-01-01T00:00:00Z\",\"refresh_token\":\"local-secret\",\"token_type\":\"Bearer\"}"
    );
    let config = bridge_config(false, &endpoint, &token);
    assert!(config.starts_with("[my-drive-ro]\ntype = drive\nclient_id = boreal-local\nclient_secret =\nscope = drive.readonly\ntoken_url = http://127.0.0.1:4242/token\ntoken = "));
    assert!(config.contains("[my-drive-rw]"));
    assert!(!config.contains("synthetic-private-refresh"));
    let name = config_file_name("local-secret");
    assert!(name.starts_with(".google-rclone-") && name.ends_with(".conf"));
    assert_eq!(name.len(), ".google-rclone-".len() + 64 + ".conf".len());
    assert!(!name.contains("local-secret"));
    let args = replace_config(&strings(&["backend", "drives", "my-drive-ro:", "--config", "/old.conf", "--config=/x"]), "/tmp/new.conf");
    assert_eq!(args, strings(&["backend", "drives", "my-drive-ro:", "--config", "/tmp/new.conf"]));
}

#[test]
fn token_requests_carry_the_local_secret_once() {
    let headers = "POST /token HTTP/1.1\r\nHost: 127.0.0.1\r\nContent-Length: 52\r\n\r\n";
    assert_eq!(check_request_headers(headers), Some(52));
    assert_eq!(check_request_headers("GET /token HTTP/1.1\r\nContent-Length: 1\r\n\r\n"), None);
    assert_eq!(check_request_headers("POST /token HTTP/1.1\r\ncontent-length: 1\r\nContent-Length: 1\r\n\r\n"), None);
    assert_eq!(check_request_headers("POST /token HTTP/1.1\r\nContent-Length: 9000\r\n\r\n"), None);
    assert_eq!(check_request_headers("POST /token HTTP/1.1\r\nContent-Length: 5\r\nTransfer-Encoding: chunked\r\n\r\n"), None);
    let good = form_pairs("grant_type=refresh_token&refresh_token=s%2Bcret");
    assert!(token_request_ok(&good, "s+cret"));
    assert!(!token_request_ok(&form_pairs("grant_type=refresh_token&refresh_token=wrong"), "s+cret"));
    assert!(!token_request_ok(&form_pairs("grant_type=refresh_token&refresh_token=s%2Bcret&refresh_token=s%2Bcret"), "s+cret"));
}

#[test]
fn bridge_answers_state_their_length_and_never_leak_on_refusal() {
    let granted = token_reply(Some(("synthetic-access".into(), 3599)), "local");
    assert!(granted.starts_with("HTTP/1.1 200 OK\r\nContent-Type: application/json\r\n"));
    let body = granted.split("\r\n\r\n").nth(1).unwrap();
    assert_eq!(body, "{\"access_token\":\"synthetic-access\",\"expires_in\":3599,\"refresh_token\":\"local\",\"token_type\":\"Bearer\"}");
    assert!(granted.contains(&format!("Content-Length: {}\r\n", body.len())));
    let refused = token_reply(None, "local");
    assert!(refused.starts_with("HTTP/1.1 400 Bad Request"));
    assert!(!refused.contains("local\""));
}

#[test]
fn shell_overrides_of_the_managed_remotes_are_removed() {
    assert!(overrides_account("RCLONE_CONFIG_MY_DRIVE_RO_TOKEN"));
    assert!(overrides_account("rclone_drive_client_id"));
    assert!(overrides_account("Rclone_Config_My-Drive-Rw_Scope"));
    assert!(!overrides_account("RCLONE_CONFIG_BACKUP_TYPE"));
    assert!(!overrides_account("HOME"));
    assert_eq!(proxy_bypass("corp.example"), "corp.example,127.0.0.1,localhost");
}
