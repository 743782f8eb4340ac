use boreal::instance::{instance_request, is_boreal_instance_response, web_url};

#[test]
fn recognizes_an_existing_boreal_status_response() {
    assert!(is_boreal_instance_response("HTTP/1.1 200 OK\r\nContent-Length: 6\r\n\r\nBOREAL"));
}

#[test]
fn rejects_a_non_boreal_response() {
    assert!(!is_boreal_instance_response("HTTP/1.1 200 OK\r\nContent-Length: 5\r\n\r\nOTHER"));
}

#[test]
fn status_responses_must_be_successful_and_exact() {
    assert!(is_boreal_instance_response("HTTP/1.0 200 OK\r\n\r\n BOREAL \n"));
    assert!(!is_boreal_instance_response("HTTP/1.1 200 OK\r\n\r\nBOREAL-OTHER"));
    assert!(!is_boreal_instance_response("HTTP/1.1 404 Not Found\r\n\r\nBOREAL"));
    assert!(!is_boreal_instance_response("HTTP/1.1 200 OK\r\nBOREAL"));
}

#[test]
fn local_addresses_are_written_for_urls() {
    assert_eq!(web_url("127.0.0.1", 8080), "http://127.0.0.1:8080");
    assert!(instance_request("127.0.0.1", 8080).starts_with("GET /app/instance HTTP/1.1\r\nHost: 127.0.0.1:8080\r\n"));
}
