//! Recognising a BOREAL instance already serving the configured local address.
use vstd::prelude::*;
use crate::text::{chars_find, chars_of, decimal, decimal_of, first_index, slice_chars, starts_with, str_eq, strip_prefix_str, trim, trim_chars};

verus! {

/// The reply of a running BOREAL to its instance probe: a `200` status (HTTP/1.1 or
/// 1.0) and, after the first blank line, the body `BOREAL` (surrounding blanks aside).
pub open spec fn boreal_reply(response: Seq<char>) -> bool {
    (starts_with(response, "HTTP/1.1 200"@) || starts_with(response, "HTTP/1.0 200"@))
        && match first_index(response, "\r\n\r\n"@) {
        Some(i) => trim(response.skip(i + 4)) == "BOREAL"@,
        None => false,
    }
}

/// Whether a probe reply comes from a running BOREAL.
pub fn is_boreal_instance_response(response: &str) -> (r: bool)
    ensures
        r == boreal_reply(response@),
{
    proof {
        reveal_strlit("\r\n\r\n");
    }
    let status = strip_prefix_str(response, "HTTP/1.1 200").is_some() || strip_prefix_str(
        response,
        "HTTP/1.0 200",
    ).is_some();
    if !status {
        return false;
    }
    let chars = chars_of(response);
    let separator = chars_of("\r\n\r\n");
    match chars_find(&chars, &separator) {
        Some(i) => {
            proof {
                crate::text::lemma_first_index_from(chars@, separator@, 0);
                assert(separator@.len() == 4);
                assert(i + 4 <= chars@.len());
            }
            let n = chars.len();
            let body = slice_chars(&chars, i + 4, n);
            assert(body@ == response@.skip(i + 4));
            let trimmed = trim_chars(&body);
            let expected = chars_of("BOREAL");
            crate::text::chars_eq(&trimmed, &expected)
        },
        None => false,
    }
}

/// The addresses BOREAL listens on and probes: loopback only.
pub open spec fn is_local(host: Seq<char>) -> bool {
    host == "127.0.0.1"@ || host == "localhost"@ || host == "::1"@
}

pub fn is_local_host(host: &str) -> (r: bool)
    ensures
        r == is_local(host@),
{
    str_eq(host, "127.0.0.1") || str_eq(host, "localhost") || str_eq(host, "::1")
}

/// The host as written in a URL: the IPv6 loopback in brackets.
pub open spec fn url_host(host: Seq<char>) -> Seq<char> {
    if host == "::1"@ {
        "[::1]"@
    } else {
        host
    }
}

/// The address of the WebUI for the configured listen address and port.
pub fn web_url(listen: &str, port: u16) -> (r: String)
    ensures
        r@ == "http://"@ + url_host(listen@) + ":"@ + decimal_of(port as nat),
{
    let mut r = "http://".to_owned();
    if str_eq(listen, "::1") {
        r.append("[::1]");
    } else {
        r.append(listen);
    }
    r.append(":");
    let p = decimal(port as u64);
    r.append(p.as_str());
    r
}

/// The probe sent to a possible running instance.
pub fn instance_request(host: &str, port: u16) -> (r: String)
    ensures
        r@ == "GET /app/instance HTTP/1.1\r\nHost: "@ + url_host(host@) + ":"@ + decimal_of(port as nat)
            + "\r\nConnection: close\r\n\r\n"@,
{
    let mut r = "GET /app/instance HTTP/1.1\r\nHost: ".to_owned();
    if str_eq(host, "::1") {
        r.append("[::1]");
    } else {
        r.append(host);
    }
    r.append(":");
    let p = decimal(port as u64);
    r.append(p.as_str());
    r.append("\r\nConnection: close\r\n\r\n");
    r
}

} // verus!
