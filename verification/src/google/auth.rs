//! One private Google grant shared by Drive, private Persons Sheets and Groups: the
//! scopes it asks for, the checks of a saved grant, token refreshes, and the PKCE
//! sign-in with its loopback callback.
use vstd::prelude::*;
use base64::Engine;
use sha2::Digest;
use crate::text::{chars_of, str_eq, strings_view, words, split_whitespace, listed};

verus! {

pub const DRIVE_READ: &'static str = "https://www.googleapis.com/auth/drive.readonly";
pub const DRIVE_WRITE: &'static str = "https://www.googleapis.com/auth/drive";
pub const GROUPS: &'static str = "https://www.googleapis.com/auth/groups";
pub const DIRECTORY_GROUPS: &'static str = "https://www.googleapis.com/auth/admin.directory.group.readonly";
pub const DIRECTORY_MEMBERS: &'static str =
    "https://www.googleapis.com/auth/admin.directory.group.member.readonly";

/// How the Google connection is set up.
#[derive(Debug, Clone, Default)]
pub struct Setup {
    pub groups_deployment: String,
    pub directory_admin: bool,
    pub migration_access: bool,
}

/// ASCII letters, digits, `-` and `_`.
pub open spec fn deployment_char(c: char) -> bool {
    ('a' <= c && c <= 'z') || ('A' <= c && c <= 'Z') || ('0' <= c && c <= '9') || c == '-' || c == '_'
}

/// A deployment ID as accepted: at most 256 characters, each `deployment_char` (so
/// a URL is refused).
pub open spec fn deployment_ok(id: Seq<char>) -> bool {
    id.len() <= 256 && forall|i: int| 0 <= i < id.len() ==> deployment_char(#[trigger] id[i])
}

impl Setup {
    /// Refuses a Groups helper deployment that is not a plain Apps Script deployment ID.
    pub fn validate(&self) -> (r: Result<(), &'static str>)
        ensures
            r is Ok <==> deployment_ok(self.groups_deployment@),
            r matches Err(m) ==> m@ == "Enter the Apps Script deployment ID, not a URL."@,
    {
        let v = chars_of(self.groups_deployment.as_str());
        if v.len() > 256 {
            return Err("Enter the Apps Script deployment ID, not a URL.");
        }
        let mut i: usize = 0;
        while i < v.len()
            invariant
                i <= v@.len(),
                v@ == self.groups_deployment@,
                forall|k: int| 0 <= k < i ==> deployment_char(#[trigger] v@[k]),
            decreases v.len() - i,
        {
            let c = v[i];
            if !(('a' <= c && c <= 'z') || ('A' <= c && c <= 'Z') || ('0' <= c && c <= '9') || c == '-'
                || c == '_') {
                return Err("Enter the Apps Script deployment ID, not a URL.");
            }
            i = i + 1;
        }
        Ok(())
    }
}

/// The services enabled in the inventory settings that use the Google grant.
#[derive(Debug, Clone, Default)]
pub struct InventorySettings {
    pub google_drive_enabled: bool,
    pub directory_sheet_enabled: bool,
    pub google_groups_enabled: bool,
}

/// The scopes one sign-in asks for: identity; Drive read-only for Drive or the Persons
/// Sheet, or full Drive when migrations are allowed; Groups through the user's own
/// scope, or the Directory scopes for a Workspace administrator.
pub open spec fn scopes_for(settings: InventorySettings, setup: Setup) -> Seq<Seq<char>> {
    seq!["openid"@, "email"@] + (if setup.migration_access {
        seq![DRIVE_WRITE@]
    } else if settings.google_drive_enabled || settings.directory_sheet_enabled {
        seq![DRIVE_READ@]
    } else {
        seq![]
    }) + (if settings.google_groups_enabled {
        if setup.directory_admin {
            seq![DIRECTORY_GROUPS@, DIRECTORY_MEMBERS@]
        } else {
            seq![GROUPS@]
        }
    } else {
        seq![]
    })
}

pub fn requested_scopes(settings: &InventorySettings, setup: &Setup) -> (r: Vec<String>)
    ensures
        strings_view(r@) == scopes_for(*settings, *setup),
{
    let mut scopes: Vec<String> = Vec::new();
    scopes.push("openid".to_owned());
    scopes.push("email".to_owned());
    if setup.migration_access {
        scopes.push(DRIVE_WRITE.to_owned());
    } else if settings.google_drive_enabled || settings.directory_sheet_enabled {
        scopes.push(DRIVE_READ.to_owned());
    }
    if settings.google_groups_enabled {
        if setup.directory_admin {
            scopes.push(DIRECTORY_GROUPS.to_owned());
            scopes.push(DIRECTORY_MEMBERS.to_owned());
        } else {
            scopes.push(GROUPS.to_owned());
        }
    }
    assert(strings_view(scopes@) =~= scopes_for(*settings, *setup));
    scopes
}

} // verus!

verus! {

/// The saved Google grant.
#[derive(Debug, Clone)]
pub struct Credentials {
    pub client_id: String,
    pub subject: String,
    pub email: String,
    pub refresh_token: String,
    pub access_token: String,
    pub expires_at: u64,
    pub scopes: Vec<String>,
}

/// A token response from Google.
#[derive(Debug, Clone)]
pub struct Token {
    pub access_token: String,
    pub refresh_token: String,
    pub scope: String,
    pub expires_in: u64,
}

/// A granted scope covers a required one when it is the same, or full Drive for Drive
/// read-only.
pub open spec fn covered_by(scopes: Seq<Seq<char>>, required: Seq<char>) -> bool {
    exists|i: int|
        0 <= i < scopes.len() && (#[trigger] scopes[i] == required || (required == DRIVE_READ@
            && scopes[i] == DRIVE_WRITE@))
}

pub fn covers(scopes: &Vec<String>, required: &str) -> (r: bool)
    ensures
        r == covered_by(strings_view(scopes@), required@),
{
    let ghost sv = strings_view(scopes@);
    let read = str_eq(required, DRIVE_READ);
    let mut i: usize = 0;
    while i < scopes.len()
        invariant
            i <= scopes@.len(),
            sv == strings_view(scopes@),
            read == (required@ == DRIVE_READ@),
            forall|k: int|
                0 <= k < i ==> !(#[trigger] sv[k] == required@ || (required@ == DRIVE_READ@ && sv[k]
                    == DRIVE_WRITE@)),
        decreases scopes.len() - i,
    {
        assert(sv[i as int] == scopes@[i as int]@);
        if str_eq(scopes[i].as_str(), required) || (read && str_eq(scopes[i].as_str(), DRIVE_WRITE)) {
            return true;
        }
        i = i + 1;
    }
    false
}

/// Why a saved grant cannot serve the required scopes: another Google app, no offline
/// access, or a scope not granted.
pub open spec fn grant_issue(saved: Credentials, client: Seq<char>, scopes: Seq<Seq<char>>) -> Option<Seq<char>> {
    if saved.client_id@ != client {
        Some("Google app changed. Reconnect once in Settings → Google connection."@)
    } else if saved.refresh_token@.len() == 0 {
        Some("Google offline access is missing. Reconnect in Settings → Google connection."@)
    } else if !(forall|i: int| 0 <= i < scopes.len() ==> covered_by(strings_view(saved.scopes@), #[trigger] scopes[i])) {
        Some(
            "Additional Google permission is needed. Connect in Settings → Google connection and approve the selected services."@,
        )
    } else {
        None
    }
}

pub fn credential_issue(saved: &Credentials, client: &str, scopes: &Vec<&str>) -> (r: Option<&'static str>)
    ensures
        match grant_issue(*saved, client@, scopes@.map_values(|s: &str| s@)) {
            Some(m) => r matches Some(x) && x@ == m,
            None => r is None,
        },
{
    let ghost rv = scopes@.map_values(|s: &str| s@);
    if !str_eq(saved.client_id.as_str(), client) {
        return Some("Google app changed. Reconnect once in Settings → Google connection.");
    }
    if saved.refresh_token.as_str().is_empty() {
        return Some("Google offline access is missing. Reconnect in Settings → Google connection.");
    }
    let mut i: usize = 0;
    while i < scopes.len()
        invariant
            i <= scopes@.len(),
            rv == scopes@.map_values(|s: &str| s@),
            saved.client_id@ == client@,
            saved.refresh_token@.len() > 0,
            forall|k: int| 0 <= k < i ==> covered_by(strings_view(saved.scopes@), #[trigger] rv[k]),
        decreases scopes.len() - i,
    {
        assert(rv[i as int] == scopes@[i as int]@);
        if !covers(&saved.scopes, scopes[i]) {
            return Some(
                "Additional Google permission is needed. Connect in Settings → Google connection and approve the selected services.",
            );
        }
        i = i + 1;
    }
    None
}

/// A grant after a refresh received at `now`: the new access token and its expiry
/// (saturating), the new refresh token and scopes when Google sent them, the rest kept.
pub open spec fn refresh_applied(before: Credentials, after: Credentials, token: Token, now: u64) -> bool {
    &&& after.access_token == token.access_token
    &&& after.expires_at == (if now + token.expires_in > u64::MAX {
        u64::MAX
    } else {
        (now + token.expires_in) as u64
    })
    &&& after.refresh_token@ == (if token.refresh_token@.len() > 0 {
        token.refresh_token@
    } else {
        before.refresh_token@
    })
    &&& strings_view(after.scopes@) == (if token.scope@.len() > 0 {
        words(token.scope@)
    } else {
        strings_view(before.scopes@)
    })
    &&& after.client_id == before.client_id
    &&& after.subject == before.subject
    &&& after.email == before.email
}

/// Applies a token refresh received at `now`; refuses a response without an access
/// token or lifetime, leaving the grant unchanged.
pub fn apply_refresh(saved: &mut Credentials, token: Token, now: u64) -> (r: Result<(), &'static str>)
    ensures
        token.access_token@.len() == 0 || token.expires_in == 0 ==> (r matches Err(m) && m@
            == "Invalid Google authorization response"@) && *final(saved) == *old(saved),
        !(token.access_token@.len() == 0 || token.expires_in == 0) ==> r is Ok && refresh_applied(
            *old(saved),
            *final(saved),
            token,
            now,
        ),
{
    if token.access_token.as_str().is_empty() || token.expires_in == 0 {
        return Err("Invalid Google authorization response");
    }
    let scopes = if token.scope.as_str().is_empty() {
        None
    } else {
        Some(split_whitespace(token.scope.as_str()))
    };
    saved.access_token = token.access_token;
    saved.expires_at = now.saturating_add(token.expires_in);
    if !token.refresh_token.as_str().is_empty() {
        saved.refresh_token = token.refresh_token;
    }
    match scopes {
        Some(s) => {
            saved.scopes = s;
        },
        None => {},
    }
    Ok(())
}

/// An access token is renewed when there is none or it expires within 390 seconds.
pub fn needs_refresh(saved: &Credentials, now: u64) -> (r: bool)
    ensures
        r == (saved.access_token@.len() == 0 || saved.expires_at <= (if now + 390 > u64::MAX {
            u64::MAX as int
        } else {
            now + 390
        })),
{
    saved.access_token.as_str().is_empty() || saved.expires_at <= now.saturating_add(390)
}

/// The message for a refused token refresh (HTTP status of Google's answer).
pub fn refresh_refusal(status: u16) -> (r: &'static str)
    ensures
        r@ == if status == 400 || status == 401 {
            "Google authorization expired or was revoked. Reconnect in Settings → Google connection."@
        } else {
            "Google authorization is temporarily unavailable. Retry the update."@
        },
{
    if status == 400 || status == 401 {
        "Google authorization expired or was revoked. Reconnect in Settings → Google connection."
    } else {
        "Google authorization is temporarily unavailable. Retry the update."
    }
}

} // verus!

verus! {

/// What SHA-256 gives for a byte string.
pub uninterp spec fn sha256_of(data: Seq<u8>) -> Seq<u8>;

/// What URL-safe base64 without padding gives for a byte string.
pub uninterp spec fn base64url_of(data: Seq<u8>) -> Seq<char>;

/// The path and the decoded query pairs (in order) of `url` as `reqwest::Url::parse`
/// reads it; `None` when it does not parse.
pub uninterp spec fn url_parts_of(url: Seq<char>) -> Option<(Seq<char>, Seq<(Seq<char>, Seq<char>)>)>;

/// The address the sign-in listener is reached at, without its port.
pub open spec fn listener_base() -> Seq<char> {
    "http://127.0.0.1"@
}

/// The path and query pairs of a request target sent to the sign-in listener.
pub open spec fn callback_url_of(target: Seq<char>) -> Option<(Seq<char>, Seq<(Seq<char>, Seq<char>)>)> {
    url_parts_of(listener_base() + target)
}

/// `sha2::Sha256::digest`: the SHA-256 digest (32 bytes) of `data`.
#[verifier::external_body]
pub(crate) fn sha256(data: &[u8]) -> (r: Vec<u8>)
    ensures
        r@ == sha256_of(data@),
        r@.len() == 32,
{
    sha2::Sha256::digest(data).to_vec()
}

/// `base64::engine::general_purpose::URL_SAFE_NO_PAD.encode`.
#[verifier::external_body]
fn base64_url(data: &[u8]) -> (r: String)
    ensures
        r@ == base64url_of(data@),
{
    base64::engine::general_purpose::URL_SAFE_NO_PAD.encode(data)
}

/// `getrandom::fill` on `n` bytes: random bytes from the operating system, or `None`
/// when it cannot provide them. Nothing is stated of the bytes.
#[verifier::external_body]
fn random_bytes(n: usize) -> (r: Option<Vec<u8>>)
    ensures
        r matches Some(v) ==> v@.len() == n,
{
    let mut bytes = vec![0u8; n];
    match getrandom::fill(&mut bytes) {
        Ok(()) => Some(bytes),
        Err(_) => None,
    }
}

pub open spec fn parsed_view(p: Option<(String, Vec<(String, String)>)>) -> Option<(Seq<char>, Seq<(Seq<char>, Seq<char>)>)> {
    match p {
        Some((path, pairs)) => Some((path@, pairs@.map_values(|kv: (String, String)| (kv.0@, kv.1@)))),
        None => None,
    }
}

/// `reqwest::Url::parse` of `url`, then its path and `query_pairs`; `None` where it
/// returns an error.
#[verifier::external_body]
fn parse_url(url: &str) -> (r: Option<(String, Vec<(String, String)>)>)
    ensures
        parsed_view(r) == url_parts_of(url@),
{
    match reqwest::Url::parse(url) {
        Ok(url) => Some((
            url.path().to_string(),
            url.query_pairs().map(|(k, v)| (k.into_owned(), v.into_owned())).collect(),
        )),
        Err(_) => None,
    }
}

/// The path and query pairs of a request target sent to the sign-in listener: the
/// target read as a URL on the listener's address.
pub(crate) fn parse_callback(target: &str) -> (r: Option<(String, Vec<(String, String)>)>)
    ensures
        parsed_view(r) == callback_url_of(target@),
{
    let mut url = "http://127.0.0.1".to_owned();
    proof {
        reveal_strlit("http://127.0.0.1");
    }
    url.append(target);
    parse_url(url.as_str())
}

/// The PKCE challenge of a verifier: URL-safe base64 (no padding) of its SHA-256 digest.
pub fn challenge(verifier: &str) -> (r: String)
    ensures
        r@ == base64url_of(sha256_of(vstd::utf8::encode_utf8(verifier@))),
{
    let digest = sha256(verifier.as_bytes());
    base64_url(digest.as_slice())
}

/// A fresh secret for the sign-in state and PKCE verifier: 32 random bytes in URL-safe
/// base64 without padding.
pub fn random_secret() -> (r: Result<String, &'static str>)
    ensures
        r matches Err(m) ==> m@ == "Unable to create secure Google sign-in state"@,
        r matches Ok(s) ==> exists|b: Seq<u8>| b.len() == 32 && s@ == base64url_of(b),
{
    match random_bytes(32) {
        Some(b) => Ok(base64_url(b.as_slice())),
        None => Err("Unable to create secure Google sign-in state"),
    }
}

/// How many query pairs have this key.
pub open spec fn key_count(pairs: Seq<(Seq<char>, Seq<char>)>, key: Seq<char>) -> nat
    decreases pairs.len(),
{
    if pairs.len() == 0 {
        0
    } else {
        key_count(pairs.drop_last(), key) + if pairs.last().0 == key {
            1nat
        } else {
            0nat
        }
    }
}

/// The non-empty values of `code`, in order.
pub open spec fn codes_of(pairs: Seq<(Seq<char>, Seq<char>)>) -> Seq<Seq<char>> {
    pairs.filter_map(
        |kv: (Seq<char>, Seq<char>)|
            if kv.0 == "code"@ && kv.1.len() > 0 {
                Some(kv.1)
            } else {
                None
            },
    )
}

/// The sign-in code of a callback: its path is `/`, it carries the expected state
/// exactly once, no `error`, and exactly one non-empty `code`.
pub open spec fn callback_result(
    parsed: Option<(Seq<char>, Seq<(Seq<char>, Seq<char>)>)>,
    expected_state: Seq<char>,
) -> Result<Seq<char>, Seq<char>> {
    match parsed {
        None => Err("Invalid Google sign-in callback"@),
        Some((path, pairs)) => if path != "/"@ || key_count(pairs, "state"@) != 1 || !(exists|i: int|
            0 <= i < pairs.len() && (#[trigger] pairs[i]).0 == "state"@ && pairs[i].1 == expected_state) {
            Err("Google sign-in state did not match"@)
        } else if key_count(pairs, "error"@) > 0 {
            Err("Google sign-in was canceled or denied"@)
        } else if codes_of(pairs).len() != 1 {
            Err("Google did not return a sign-in code"@)
        } else {
            Ok(codes_of(pairs)[0])
        },
    }
}

fn count_key(pairs: &Vec<(String, String)>, key: &str) -> (r: usize)
    ensures
        r == key_count(pairs@.map_values(|kv: (String, String)| (kv.0@, kv.1@)), key@),
{
    let ghost pv = pairs@.map_values(|kv: (String, String)| (kv.0@, kv.1@));
    let mut n: usize = 0;
    let mut i: usize = 0;
    while i < pairs.len()
        invariant
            i <= pairs@.len(),
            n <= i,
            pv == pairs@.map_values(|kv: (String, String)| (kv.0@, kv.1@)),
            n == key_count(pv.take(i as int), key@),
        decreases pairs.len() - i,
    {
        let ghost t = pv.take(i + 1);
        assert(t.drop_last() == pv.take(i as int));
        assert(t.last() == pv[i as int]);
        if str_eq(pairs[i].0.as_str(), key) {
            n = n + 1;
        }
        i = i + 1;
    }
    assert(pv.take(pairs@.len() as int) == pv);
    n
}

/// The decision on a parsed callback, as `callback_result` states it.
pub fn callback_decision(parsed: Option<(String, Vec<(String, String)>)>, expected_state: &str) -> (r: Result<
    String,
    &'static str,
>)
    ensures
        match callback_result(parsed_view(parsed), expected_state@) {
            Ok(code) => r matches Ok(c) && c@ == code,
            Err(m) => r matches Err(e) && e@ == m,
        },
{
    match parsed {
        None => Err("Invalid Google sign-in callback"),
        Some((path, pairs)) => {
            let ghost pv = pairs@.map_values(|kv: (String, String)| (kv.0@, kv.1@));
            let mut has_state = false;
            let mut i: usize = 0;
            while i < pairs.len()
                invariant
                    i <= pairs@.len(),
                    pv == pairs@.map_values(|kv: (String, String)| (kv.0@, kv.1@)),
                    has_state == exists|k: int|
                        0 <= k < i && (#[trigger] pv[k]).0 == "state"@ && pv[k].1 == expected_state@,
                decreases pairs.len() - i,
            {
                assert(pv[i as int] == (pairs@[i as int].0@, pairs@[i as int].1@));
                if str_eq(pairs[i].0.as_str(), "state") && str_eq(pairs[i].1.as_str(), expected_state) {
                    has_state = true;
                }
                i = i + 1;
            }
            if !str_eq(path.as_str(), "/") || count_key(&pairs, "state") != 1 || !has_state {
                return Err("Google sign-in state did not match");
            }
            if count_key(&pairs, "error") > 0 {
                return Err("Google sign-in was canceled or denied");
            }
            let mut codes: Vec<String> = Vec::new();
            let mut j: usize = 0;
            while j < pairs.len()
                invariant
                    j <= pairs@.len(),
                    pv == pairs@.map_values(|kv: (String, String)| (kv.0@, kv.1@)),
                    strings_view(codes@) == codes_of(pv.take(j as int)),
                decreases pairs.len() - j,
            {
                let ghost t = pv.take(j + 1);
                assert(t.drop_last() == pv.take(j as int));
                assert(t.last() == pv[j as int]);
                if str_eq(pairs[j].0.as_str(), "code") && !pairs[j].1.as_str().is_empty() {
                    let ghost before = strings_view(codes@);
                    codes.push(pairs[j].1.clone());
                    assert(strings_view(codes@) =~= before.push(pairs@[j as int].1@));
                }
                j = j + 1;
            }
            assert(pv.take(pairs@.len() as int) == pv);
            if codes.len() != 1 {
                return Err("Google did not return a sign-in code");
            }
            assert(codes@[0]@ == strings_view(codes@)[0]);
            Ok(codes[0].clone())
        },
    }
}

/// The sign-in code carried by a callback request target (`/?state=…&code=…`).
pub fn callback_code(target: &str, expected_state: &str) -> (r: Result<String, &'static str>)
    ensures
        match callback_result(callback_url_of(target@), expected_state@) {
            Ok(code) => r matches Ok(c) && c@ == code,
            Err(m) => r matches Err(e) && e@ == m,
        },
{
    let parsed = parse_callback(target);
    callback_decision(parsed, expected_state)
}

} // verus!

verus! {

/// What the sign-in listener does with one request.
#[derive(Debug)]
pub enum CallbackReply {
    /// Not the callback (another method or path): keep waiting.
    Ignore,
    /// The callback: answer with `response` and finish with `code`.
    Answer { response: String, code: Result<String, &'static str> },
}

pub open spec fn callback_message(accepted: bool) -> Seq<char> {
    if accepted {
        "Google sign-in received. Return to Boreal to finish connecting."@
    } else {
        "Sign-in callback was not accepted. Return to Boreal and try again."@
    }
}

/// The plain-text HTTP answer carrying `message`.
pub open spec fn plain_response(message: Seq<char>) -> Seq<char> {
    "HTTP/1.1 200 OK\r\nContent-Type: text/plain; charset=utf-8\r\nCache-Control: no-store\r\nReferrer-Policy: no-referrer\r\nConnection: close\r\nContent-Length: "@
        + crate::text::decimal_of((vstd::utf8::encode_utf8(message).len() as usize) as nat) + "\r\n\r\n"@
        + message
}

/// Handles the first line of a request to the sign-in listener: only `GET` of a target
/// starting with `/?` is the callback; unrelated requests do not end the sign-in.
pub fn on_callback_request(request_line: &str, expected_state: &str) -> (r: CallbackReply)
    ensures
        ({
            let w = words(request_line@);
            let target = if w.len() >= 2 {
                w[1]
            } else {
                Seq::<char>::empty()
            };
            if w.len() == 0 || w[0] != "GET"@ || !crate::text::starts_with(target, "/?"@) {
                r is Ignore
            } else {
                r matches CallbackReply::Answer { response, code } && match callback_result(
                    callback_url_of(target),
                    expected_state@,
                ) {
                    Ok(c) => code matches Ok(x) && x@ == c && response@ == plain_response(callback_message(true)),
                    Err(m) => code matches Err(e) && e@ == m && response@ == plain_response(
                        callback_message(false),
                    ),
                }
            }
        }),
{
    let w = split_whitespace(request_line);
    if w.len() == 0 || !str_eq(w[0].as_str(), "GET") {
        proof {
            if w@.len() > 0 {
                assert(strings_view(w@)[0] == w@[0]@);
            }
        }
        return CallbackReply::Ignore;
    }
    assert(strings_view(w@)[0] == w@[0]@);
    let target: String = if w.len() >= 2 {
        assert(strings_view(w@)[1] == w@[1]@);
        w[1].clone()
    } else {
        String::new()
    };
    proof {
        reveal_strlit("/?");
    }
    if crate::text::strip_prefix_str(target.as_str(), "/?").is_none() {
        return CallbackReply::Ignore;
    }
    let code = callback_code(target.as_str(), expected_state);
    let message = if code.is_ok() {
        "Google sign-in received. Return to Boreal to finish connecting."
    } else {
        "Sign-in callback was not accepted. Return to Boreal and try again."
    };
    let mut response = "HTTP/1.1 200 OK\r\nContent-Type: text/plain; charset=utf-8\r\nCache-Control: no-store\r\nReferrer-Policy: no-referrer\r\nConnection: close\r\nContent-Length: ".to_owned();
    let length = crate::text::decimal(message.len() as u64);
    response.append(length.as_str());
    response.append("\r\n\r\n");
    response.append(message);
    CallbackReply::Answer { response, code }
}

/// A token exchange must grant offline access.
pub fn check_grant(token: &Token) -> (r: Result<(), &'static str>)
    ensures
        r is Ok <==> (token.refresh_token@.len() > 0 && token.access_token@.len() > 0),
        r matches Err(m) ==> m@ == "Google did not grant offline access. Connect again and approve access."@,
{
    if token.refresh_token.as_str().is_empty() || token.access_token.as_str().is_empty() {
        return Err("Google did not grant offline access. Connect again and approve access.");
    }
    Ok(())
}

/// The connected account must have a verified address and an identifier.
pub fn check_identity(subject: &str, email: &str, email_verified: bool) -> (r: Result<(), &'static str>)
    ensures
        r is Ok <==> (email_verified && subject@.len() > 0 && email@.len() > 0),
        r matches Err(m) ==> m@ == "Google account email is not verified"@,
{
    if !email_verified || subject.is_empty() || email.is_empty() {
        return Err("Google account email is not verified");
    }
    Ok(())
}

/// The grant saved after a sign-in completed at `now`.
pub fn new_credentials(client_id: String, subject: String, email: String, token: Token, now: u64) -> (r: Credentials)
    ensures
        r.client_id == client_id && r.subject == subject && r.email == email,
        r.refresh_token == token.refresh_token && r.access_token == token.access_token,
        r.expires_at == (if now + token.expires_in > u64::MAX {
            u64::MAX
        } else {
            (now + token.expires_in) as u64
        }),
        strings_view(r.scopes@) == words(token.scope@),
{
    let scopes = split_whitespace(token.scope.as_str());
    Credentials {
        client_id,
        subject,
        email,
        refresh_token: token.refresh_token,
        access_token: token.access_token,
        expires_at: now.saturating_add(token.expires_in),
        scopes,
    }
}

/// The query of the authorization request: offline access, PKCE (S256) and consent
/// with account choice, for the scopes joined by spaces.
pub open spec fn authorization_query(
    client_id: Seq<char>,
    redirect: Seq<char>,
    scope: Seq<char>,
    state: Seq<char>,
    verifier: Seq<char>,
) -> Seq<(Seq<char>, Seq<char>)> {
    seq![
        ("client_id"@, client_id),
        ("redirect_uri"@, redirect),
        ("response_type"@, "code"@),
        ("scope"@, scope),
        ("state"@, state),
        ("code_challenge"@, base64url_of(sha256_of(vstd::utf8::encode_utf8(verifier)))),
        ("code_challenge_method"@, "S256"@),
        ("access_type"@, "offline"@),
        ("prompt"@, "consent select_account"@),
    ]
}

/// `scopes` joined by single spaces.
pub open spec fn spaced(scopes: Seq<Seq<char>>) -> Seq<char>
    decreases scopes.len(),
{
    if scopes.len() == 0 {
        seq![]
    } else if scopes.len() == 1 {
        scopes[0]
    } else {
        spaced(scopes.drop_last()) + " "@ + scopes.last()
    }
}

pub fn authorization_pairs(
    client_id: &str,
    redirect: &str,
    scopes: &Vec<String>,
    state: &str,
    verifier: &str,
) -> (r: Vec<(String, String)>)
    ensures
        r@.map_values(|kv: (String, String)| (kv.0@, kv.1@)) == authorization_query(
            client_id@,
            redirect@,
            spaced(strings_view(scopes@)),
            state@,
            verifier@,
        ),
{
    let mut scope = String::new();
    let mut i: usize = 0;
    while i < scopes.len()
        invariant
            i <= scopes@.len(),
            scope@ == spaced(strings_view(scopes@).take(i as int)),
        decreases scopes.len() - i,
    {
        let ghost t = strings_view(scopes@).take(i + 1);
        assert(t.drop_last() == strings_view(scopes@).take(i as int));
        assert(t.last() == scopes@[i as int]@);
        if i == 0 {
            assert(t[0] == scopes@[0]@);
        }
        if i > 0 {
            scope.append(" ");
        }
        scope.append(scopes[i].as_str());
        i = i + 1;
    }
    assert(strings_view(scopes@).take(scopes@.len() as int) == strings_view(scopes@));
    let mut r: Vec<(String, String)> = Vec::new();
    r.push(("client_id".to_owned(), client_id.to_owned()));
    r.push(("redirect_uri".to_owned(), redirect.to_owned()));
    r.push(("response_type".to_owned(), "code".to_owned()));
    r.push(("scope".to_owned(), scope));
    r.push(("state".to_owned(), state.to_owned()));
    r.push(("code_challenge".to_owned(), challenge(verifier)));
    r.push(("code_challenge_method".to_owned(), "S256".to_owned()));
    r.push(("access_type".to_owned(), "offline".to_owned()));
    r.push(("prompt".to_owned(), "consent select_account".to_owned()));
    assert(r@.map_values(|kv: (String, String)| (kv.0@, kv.1@)) =~= authorization_query(
        client_id@,
        redirect@,
        spaced(strings_view(scopes@)),
        state@,
        verifier@,
    ));
    r
}

} // verus!

verus! {

/// What keeps the saved grant from serving `scopes`: no saved grant, no configured
/// Google app (`client_id`), or `grant_issue`.
pub open spec fn issue_for(saved: Option<Credentials>, client_id: Option<Seq<char>>, scopes: Seq<Seq<char>>) -> Option<
    Seq<char>,
> {
    match saved {
        None => Some("Connect Google once in Settings → Google connection for your enabled services."@),
        Some(c) => match client_id {
            None => Some("Configure the Google project in Settings → Google connection."@),
            Some(id) => grant_issue(c, id, scopes),
        },
    }
}

/// Why the saved grant (if one could be read) cannot serve `scopes` with the configured
/// Google app (if one is configured), or `None` when it can.
pub fn issue(saved: Option<&Credentials>, client_id: Option<&str>, scopes: &Vec<&str>) -> (r: Option<&'static str>)
    ensures
        match issue_for(
            match saved {
                Some(c) => Some(*c),
                None => None,
            },
            match client_id {
                Some(id) => Some(id@),
                None => None,
            },
            scopes@.map_values(|s: &str| s@),
        ) {
            Some(m) => r matches Some(x) && x@ == m,
            None => r is None,
        },
{
    match saved {
        None => Some("Connect Google once in Settings → Google connection for your enabled services."),
        Some(c) => match client_id {
            None => Some("Configure the Google project in Settings → Google connection."),
            Some(id) => credential_issue(c, id, scopes),
        },
    }
}

/// Whether the saved grant serves `scope` with the configured Google app.
pub fn granted(saved: Option<&Credentials>, client_id: Option<&str>, scope: &str) -> (r: bool)
    ensures
        r == issue_for(
            match saved {
                Some(c) => Some(*c),
                None => None,
            },
            match client_id {
                Some(id) => Some(id@),
                None => None,
            },
            seq![scope@],
        ) is None,
{
    let mut scopes: Vec<&str> = Vec::new();
    scopes.push(scope);
    assert(scopes@.map_values(|s: &str| s@) =~= seq![scope@]);
    issue(saved, client_id, &scopes).is_none()
}

} // verus!

verus! {

/// The runtime's Google configuration directory (`CONF` among the runtime's named
/// directories).
pub fn conf(directories: &Vec<(String, String)>) -> (r: Result<String, String>)
    ensures
        match crate::google::client::directory_named(crate::google::client::directories_view(directories@), "CONF"@) {
            Some(d) => r matches Ok(p) && p@ == d,
            None => r matches Err(m) && m@ == "Google configuration directory is unavailable"@,
        },
{
    match crate::google::client::find_directory(directories, "CONF") {
        Some(d) => Ok(d),
        None => Err("Google configuration directory is unavailable".to_owned()),
    }
}

/// The Google connection setup from its saved file: the default when there is no file
/// (`None`), refused when the file cannot be read as a setup (`Some(None)`) or holds
/// an invalid one.
pub fn setup(saved: Option<Option<Setup>>) -> (r: Result<Setup, String>)
    ensures
        match saved {
            None => r matches Ok(s) && s.groups_deployment@.len() == 0 && !s.directory_admin && !s.migration_access,
            Some(None) => r matches Err(m) && m@ == "Google connection setup could not be read"@,
            Some(Some(v)) => if deployment_ok(v.groups_deployment@) {
                r matches Ok(s) && s == v
            } else {
                r matches Err(m) && m@ == "Enter the Apps Script deployment ID, not a URL."@
            },
        },
{
    match saved {
        None => Ok(Setup { groups_deployment: String::new(), directory_admin: false, migration_access: false }),
        Some(None) => Err("Google connection setup could not be read".to_owned()),
        Some(Some(v)) => match v.validate() {
            Ok(()) => Ok(v),
            Err(m) => Err(m.to_owned()),
        },
    }
}

impl Credentials {
    /// A field-by-field copy.
    pub fn duplicate(&self) -> (r: Credentials)
        ensures
            r.client_id@ == self.client_id@,
            r.subject@ == self.subject@,
            r.email@ == self.email@,
            r.refresh_token@ == self.refresh_token@,
            r.access_token@ == self.access_token@,
            r.expires_at == self.expires_at,
            strings_view(r.scopes@) == strings_view(self.scopes@),
    {
        let mut scopes: Vec<String> = Vec::new();
        let mut i: usize = 0;
        while i < self.scopes.len()
            invariant
                i <= self.scopes@.len(),
                strings_view(scopes@) == strings_view(self.scopes@).take(i as int),
            decreases self.scopes.len() - i,
        {
            let ghost before = strings_view(scopes@);
            scopes.push(self.scopes[i].clone());
            assert(strings_view(scopes@) =~= before.push(self.scopes@[i as int]@));
            assert(strings_view(self.scopes@).take(i + 1) =~= strings_view(self.scopes@).take(i as int).push(
                self.scopes@[i as int]@,
            ));
            i = i + 1;
        }
        assert(strings_view(self.scopes@).take(self.scopes@.len() as int) =~= strings_view(self.scopes@));
        Credentials {
            client_id: self.client_id.clone(),
            subject: self.subject.clone(),
            email: self.email.clone(),
            refresh_token: self.refresh_token.clone(),
            access_token: self.access_token.clone(),
            expires_at: self.expires_at,
            scopes,
        }
    }
}

/// Where the reading of an access token stands.
#[derive(Debug, Clone, Copy, PartialEq, Eq, Structural)]
pub enum AccessStage {
    /// Waiting for the saved grant and the Google app.
    Loading,
    /// Waiting for Google's answer to a token refresh.
    Refreshing,
    /// Waiting for the refreshed grant to be saved.
    Saving,
    Finished,
}

/// Reading an access token for one scope from the saved grant, refreshing it first
/// when it is missing or about to expire.
#[derive(Debug, Clone)]
pub struct AccessToken {
    pub stage: AccessStage,
    pub scope: String,
    /// The grant as loaded (and refreshed).
    pub saved: Credentials,
}

/// What happened since the last action; each event carries the time (Unix seconds).
pub enum AccessEvent {
    /// The saved grant and the Google app, or why each could not be read.
    Loaded { saved: Result<Credentials, String>, client: Result<crate::google::client::GoogleClientConfig, String>, now: u64 },
    /// Google's answer to the refresh (`None`: Google could not be reached): its HTTP
    /// status and the token it holds (`None`: not a token response).
    Refreshed { response: Option<(u16, Option<Token>)>, now: u64 },
    /// The refreshed grant was saved, or why not.
    Saved { result: Result<(), String>, now: u64 },
}

/// What the reading asks for next.
#[derive(Debug)]
pub enum AccessAction {
    /// Read the saved grant and the Google app.
    Load,
    /// Post this form to Google's token endpoint.
    Refresh(Vec<(String, String)>),
    /// Save this grant privately.
    Save(Credentials),
    /// The access token and the seconds it stays valid, or why there is none.
    Finish(Result<(String, u64), String>),
}

pub open spec fn access_expects(stage: AccessStage, event: AccessEvent) -> bool {
    match stage {
        AccessStage::Loading => event is Loaded,
        AccessStage::Refreshing => event is Refreshed,
        AccessStage::Saving => event is Saved,
        AccessStage::Finished => false,
    }
}

/// The outcome once the grant is current: its access token and remaining lifetime, or
/// a refusal when it no longer covers the scope.
pub open spec fn access_outcome(saved: Credentials, scope: Seq<char>, now: u64) -> Result<(Seq<char>, u64), Seq<char>> {
    if !covered_by(strings_view(saved.scopes@), scope) {
        Err("Google no longer grants this permission. Reconnect in Settings → Google connection."@)
    } else {
        Ok((saved.access_token@, if saved.expires_at >= now { (saved.expires_at - now) as u64 } else { 0 }))
    }
}

/// The form of a token refresh.
pub open spec fn refresh_form(client_id: Seq<char>, client_secret: Seq<char>, refresh_token: Seq<char>) -> Seq<
    (Seq<char>, Seq<char>),
> {
    seq![
        ("client_id"@, client_id),
        ("client_secret"@, client_secret),
        ("refresh_token"@, refresh_token),
        ("grant_type"@, "refresh_token"@),
    ]
}

pub open spec fn pairs_view(p: Seq<(String, String)>) -> Seq<(Seq<char>, Seq<char>)> {
    p.map_values(|x: (String, String)| (x.0@, x.1@))
}

pub open spec fn finish_view(a: AccessAction) -> Option<Result<(Seq<char>, u64), Seq<char>>> {
    match a {
        AccessAction::Finish(Ok((t, n))) => Some(Ok((t@, n))),
        AccessAction::Finish(Err(m)) => Some(Err(m@)),
        _ => None,
    }
}

fn finish_access(saved: &Credentials, scope: &str, now: u64) -> (r: AccessAction)
    ensures
        finish_view(r) == Some(access_outcome(*saved, scope@, now)),
{
    if !covers(&saved.scopes, scope) {
        return AccessAction::Finish(
            Err("Google no longer grants this permission. Reconnect in Settings → Google connection.".to_owned()),
        );
    }
    AccessAction::Finish(Ok((saved.access_token.clone(), saved.expires_at.saturating_sub(now))))
}

/// Starts reading an access token for `scope`: first the saved grant is loaded.
pub fn access_token(scope: String) -> (r: (AccessToken, AccessAction))
    ensures
        r.0.stage == AccessStage::Loading,
        r.0.scope@ == scope@,
        r.1 is Load,
{
    let saved = Credentials {
        client_id: String::new(),
        subject: String::new(),
        email: String::new(),
        refresh_token: String::new(),
        access_token: String::new(),
        expires_at: 0,
        scopes: Vec::new(),
    };
    (AccessToken { stage: AccessStage::Loading, scope, saved }, AccessAction::Load)
}

impl AccessToken {
    /// The next stage and action after the event the reading waits for.
    pub fn step(self, event: AccessEvent) -> (r: (AccessToken, AccessAction))
        requires
            access_expects(self.stage, event),
        ensures
            r.0.scope@ == self.scope@,
            match event {
            AccessEvent::Loaded { saved, client, now } => match saved {
                Err(e) => r.0.stage == AccessStage::Finished && finish_view(r.1) == Some(
                    Err::<(Seq<char>, u64), Seq<char>>(e@),
                ),
                Ok(s) => match client {
                    Err(e) => r.0.stage == AccessStage::Finished && finish_view(r.1) == Some(
                        Err::<(Seq<char>, u64), Seq<char>>(e@),
                    ),
                    Ok(c) => match grant_issue(s, c.client_id@, seq![self.scope@]) {
                        Some(m) => r.0.stage == AccessStage::Finished && finish_view(r.1) == Some(
                            Err::<(Seq<char>, u64), Seq<char>>(m),
                        ),
                        None => if s.access_token@.len() == 0 || s.expires_at <= now + 390 {
                            &&& r.0.stage == AccessStage::Refreshing
                            &&& r.0.saved == s
                            &&& r.1 matches AccessAction::Refresh(form) && pairs_view(form@) == refresh_form(
                                c.client_id@,
                                c.client_secret@,
                                s.refresh_token@,
                            )
                        } else {
                            r.0.stage == AccessStage::Finished && finish_view(r.1) == Some(
                                access_outcome(s, self.scope@, now),
                            )
                        },
                    },
                },
            },
            AccessEvent::Refreshed { response, now } => match response {
                None => r.0.stage == AccessStage::Finished && finish_view(r.1) == Some(
                    Err::<(Seq<char>, u64), Seq<char>>("Unable to reach Google. Retry the update."@),
                ),
                Some((status, token)) => if !(200 <= status < 300) {
                    r.0.stage == AccessStage::Finished && finish_view(r.1) == Some(
                        Err::<(Seq<char>, u64), Seq<char>>(
                            if status == 400 || status == 401 {
                                "Google authorization expired or was revoked. Reconnect in Settings → Google connection."@
                            } else {
                                "Google authorization is temporarily unavailable. Retry the update."@
                            },
                        ),
                    )
                } else {
                    match token {
                        None => r.0.stage == AccessStage::Finished && finish_view(r.1) == Some(
                            Err::<(Seq<char>, u64), Seq<char>>("Invalid Google authorization response"@),
                        ),
                        Some(t) => if t.access_token@.len() == 0 || t.expires_in == 0 {
                            r.0.stage == AccessStage::Finished && finish_view(r.1) == Some(
                                Err::<(Seq<char>, u64), Seq<char>>("Invalid Google authorization response"@),
                            )
                        } else {
                            &&& r.0.stage == AccessStage::Saving
                            &&& refresh_applied(self.saved, r.0.saved, t, now)
                            &&& r.1 matches AccessAction::Save(c) && c.access_token@ == r.0.saved.access_token@
                                && c.expires_at == r.0.saved.expires_at && c.refresh_token@
                                == r.0.saved.refresh_token@ && strings_view(c.scopes@) == strings_view(
                                r.0.saved.scopes@,
                            ) && c.client_id@ == r.0.saved.client_id@ && c.subject@ == r.0.saved.subject@
                                && c.email@ == r.0.saved.email@
                        },
                    }
                },
            },
            AccessEvent::Saved { result, now } => match result {
                Err(e) => r.0.stage == AccessStage::Finished && finish_view(r.1) == Some(
                    Err::<(Seq<char>, u64), Seq<char>>(e@),
                ),
                Ok(()) => r.0.stage == AccessStage::Finished && finish_view(r.1) == Some(
                    access_outcome(self.saved, self.scope@, now),
                ),
            },
            },
    {
        let AccessToken { stage, scope, saved } = self;
        match event {
            AccessEvent::Loaded { saved: loaded, client, now } => {
                let s = match loaded {
                    Err(e) => {
                        return (AccessToken { stage: AccessStage::Finished, scope, saved }, AccessAction::Finish(Err(e)));
                    },
                    Ok(s) => s,
                };
                let c = match client {
                    Err(e) => {
                        return (AccessToken { stage: AccessStage::Finished, scope, saved: s }, AccessAction::Finish(Err(e)));
                    },
                    Ok(c) => c,
                };
                let mut scopes: Vec<&str> = Vec::new();
                scopes.push(scope.as_str());
                assert(scopes@.map_values(|x: &str| x@) =~= seq![scope@]);
                match credential_issue(&s, c.client_id.as_str(), &scopes) {
                    Some(m) => {
                        return (
                            AccessToken { stage: AccessStage::Finished, scope, saved: s },
                            AccessAction::Finish(Err(m.to_owned())),
                        );
                    },
                    None => {},
                }
                if needs_refresh(&s, now) {
                    let mut form: Vec<(String, String)> = Vec::new();
                    form.push(("client_id".to_owned(), c.client_id.clone()));
                    form.push(("client_secret".to_owned(), c.client_secret.clone()));
                    form.push(("refresh_token".to_owned(), s.refresh_token.clone()));
                    form.push(("grant_type".to_owned(), "refresh_token".to_owned()));
                    assert(pairs_view(form@) =~= refresh_form(c.client_id@, c.client_secret@, s.refresh_token@));
                    return (AccessToken { stage: AccessStage::Refreshing, scope, saved: s }, AccessAction::Refresh(form));
                }
                let done = finish_access(&s, scope.as_str(), now);
                (AccessToken { stage: AccessStage::Finished, scope, saved: s }, done)
            },
            AccessEvent::Refreshed { response, now } => {
                let (status, token) = match response {
                    None => {
                        return (
                            AccessToken { stage: AccessStage::Finished, scope, saved },
                            AccessAction::Finish(Err("Unable to reach Google. Retry the update.".to_owned())),
                        );
                    },
                    Some(x) => x,
                };
                if !(200 <= status && status < 300) {
                    return (
                        AccessToken { stage: AccessStage::Finished, scope, saved },
                        AccessAction::Finish(Err(refresh_refusal(status).to_owned())),
                    );
                }
                let t = match token {
                    None => {
                        return (
                            AccessToken { stage: AccessStage::Finished, scope, saved },
                            AccessAction::Finish(Err("Invalid Google authorization response".to_owned())),
                        );
                    },
                    Some(t) => t,
                };
                let mut updated = saved;
                match apply_refresh(&mut updated, t, now) {
                    Err(m) => (
                        AccessToken { stage: AccessStage::Finished, scope, saved: updated },
                        AccessAction::Finish(Err(m.to_owned())),
                    ),
                    Ok(()) => {
                        let copy = updated.duplicate();
                        (AccessToken { stage: AccessStage::Saving, scope, saved: updated }, AccessAction::Save(copy))
                    },
                }
            },
            AccessEvent::Saved { result, now } => {
                match result {
                    Err(e) => (AccessToken { stage: AccessStage::Finished, scope, saved }, AccessAction::Finish(Err(e))),
                    Ok(()) => {
                        let done = finish_access(&saved, scope.as_str(), now);
                        (AccessToken { stage: AccessStage::Finished, scope, saved }, done)
                    },
                }
            },
        }
    }
}

} // verus!

verus! {

/// The account Google reports for a completed sign-in.
#[derive(Debug, Clone)]
pub struct Identity {
    pub subject: String,
    pub email: String,
    pub email_verified: bool,
}

/// Where connecting a Google account stands.
#[derive(Debug, Clone, Copy, PartialEq, Eq, Structural)]
pub enum SignInStage {
    /// Waiting for the loopback listener that receives Google's callback.
    Listening,
    /// Waiting for the browser to open the authorization page.
    Opening,
    /// Waiting for the cancellation flag and the clock.
    Ticking,
    /// Waiting for a request to the listener.
    Accepting,
    /// Waiting for the answer to the callback to be written.
    Answering,
    /// Waiting for Google's answer to the code exchange.
    Exchanging,
    /// Waiting for the connected account's identity.
    Identifying,
    /// Waiting for the new grant to be saved.
    Saving,
    Finished,
}

/// Connecting a Google account: authorization in the browser with PKCE, the callback on
/// a loopback listener, the code exchange, the identity check and the saved grant.
pub struct SignIn {
    pub stage: SignInStage,
    pub client: crate::google::client::GoogleClientConfig,
    pub scopes: Vec<String>,
    /// The loopback address Google sends the browser back to.
    pub redirect: String,
    /// The secret the callback must carry back.
    pub state: String,
    /// The PKCE verifier.
    pub verifier: String,
    /// When waiting for the callback ends (monotonic clock, milliseconds).
    pub deadline: u64,
    /// The callback's outcome: the sign-in code, or why it was refused.
    pub callback: Result<String, String>,
    /// The token Google granted for the code.
    pub token: Token,
}

/// What a look at the listener found.
pub enum Connection {
    /// No request is waiting.
    Waiting,
    /// Accepting a request failed.
    Failed,
    /// A request arrived; its first line as read.
    Request(String),
}

/// What happened since the last action.
pub enum SignInEvent {
    /// The listener's port, or `None` when no listener could be started.
    Listening { port: Option<u16> },
    /// Whether the browser opened the authorization page, and the monotonic clock (ms).
    Opened { opened: bool, clock: u64 },
    /// Whether the application is shutting down, and the monotonic clock (ms).
    Ticked { canceled: bool, clock: u64 },
    Accepted { connection: Connection },
    /// The answer to the callback was written (or could not be: that does not matter).
    Answered,
    /// Google's answer to the code exchange (`None`: Google could not be reached): its
    /// HTTP status and the token it holds (`None`: not a token response).
    Exchanged { response: Option<(u16, Option<Token>)> },
    /// Google's answer about the account (`None`: Google could not be reached), whether
    /// the application is shutting down, and the time (Unix seconds).
    Identified { response: Option<(u16, Option<Identity>)>, canceled: bool, now: u64 },
    /// The grant was saved, or why not.
    Saved { result: Result<(), String> },
}

/// What connecting asks for next.
#[derive(Debug)]
pub enum SignInAction {
    /// Start a listener on 127.0.0.1 on a free port.
    Listen,
    /// Open Google's authorization page with this query in the browser.
    Open(Vec<(String, String)>),
    /// Report the cancellation flag and the clock; after a pause of 100 ms if `pause`.
    Tick { pause: bool },
    /// Accept one waiting request, if any, and read its first line.
    Accept,
    /// Write this answer to the request and close it.
    Answer(String),
    /// Post this form to Google's token endpoint.
    Exchange(Vec<(String, String)>),
    /// Ask Google who holds this access token.
    Identify(String),
    /// Save this grant privately.
    Save(Credentials),
    /// Connecting is over: it succeeded, or why not.
    Finish(Result<(), String>),
}

pub open spec fn sign_in_expects(stage: SignInStage, event: SignInEvent) -> bool {
    match stage {
        SignInStage::Listening => event is Listening,
        SignInStage::Opening => event is Opened,
        SignInStage::Ticking => event is Ticked,
        SignInStage::Accepting => event is Accepted,
        SignInStage::Answering => event is Answered,
        SignInStage::Exchanging => event is Exchanged,
        SignInStage::Identifying => event is Identified,
        SignInStage::Saving => event is Saved,
        SignInStage::Finished => false,
    }
}

/// The callback address on the loopback listener's port.
pub open spec fn loopback_redirect(port: u16) -> Seq<char> {
    "http://127.0.0.1:"@ + crate::text::decimal_of(port as nat) + "/"@
}

/// A secret as `random_secret` makes them: 32 bytes in URL-safe base64.
pub open spec fn is_secret(s: Seq<char>) -> bool {
    exists|b: Seq<u8>| b.len() == 32 && s == base64url_of(b)
}

/// How long the callback is awaited: 180 seconds after the page opened.
pub open spec fn callback_deadline(clock: u64) -> u64 {
    if clock + 180000 > u64::MAX {
        u64::MAX
    } else {
        (clock + 180000) as u64
    }
}

/// The target of a request line that is Google's callback: a `GET` of `/?…`.
pub open spec fn callback_target(line: Seq<char>) -> Option<Seq<char>> {
    let w = words(line);
    let target = if w.len() >= 2 {
        w[1]
    } else {
        Seq::<char>::empty()
    };
    if w.len() == 0 || w[0] != "GET"@ || !crate::text::starts_with(target, "/?"@) {
        None
    } else {
        Some(target)
    }
}

/// The form exchanging the sign-in code for a token.
pub open spec fn exchange_form(
    client_id: Seq<char>,
    client_secret: Seq<char>,
    code: Seq<char>,
    verifier: Seq<char>,
    redirect: Seq<char>,
) -> Seq<(Seq<char>, Seq<char>)> {
    seq![
        ("client_id"@, client_id),
        ("client_secret"@, client_secret),
        ("code"@, code),
        ("code_verifier"@, verifier),
        ("redirect_uri"@, redirect),
        ("grant_type"@, "authorization_code"@),
    ]
}

/// Connecting ended with the message `m`.
pub open spec fn ended_with(r: (SignIn, SignInAction), m: Seq<char>) -> bool {
    &&& r.0.stage == SignInStage::Finished
    &&& r.1 matches SignInAction::Finish(Err(e)) && e@ == m
}

/// Starts connecting with the configured Google app, asking for `scopes`.
pub fn sign_in(client: Option<crate::google::client::GoogleClientConfig>, scopes: Vec<String>) -> (r: (SignIn, SignInAction))
    ensures
        r.0.scopes == scopes,
        match client {
            None => ended_with(r, "Configure your Google Desktop Client ID first"@),
            Some(c) => r.0.stage == SignInStage::Listening && r.0.client == c && r.1 is Listen,
        },
{
    let token = Token { access_token: String::new(), refresh_token: String::new(), scope: String::new(), expires_in: 0 };
    let (stage, client, action) = match client {
        Some(c) => (SignInStage::Listening, c, SignInAction::Listen),
        None => (
            SignInStage::Finished,
            crate::google::client::GoogleClientConfig {
                client_id: String::new(),
                client_secret: String::new(),
                project_id: None,
            },
            SignInAction::Finish(Err("Configure your Google Desktop Client ID first".to_owned())),
        ),
    };
    (
        SignIn {
            stage,
            client,
            scopes,
            redirect: String::new(),
            state: String::new(),
            verifier: String::new(),
            deadline: 0,
            callback: Err(String::new()),
            token,
        },
        action,
    )
}

fn end(s: SignIn, message: &str) -> (r: (SignIn, SignInAction))
    ensures
        ended_with(r, message@),
        r.0.client == s.client && r.0.scopes == s.scopes && r.0.redirect == s.redirect && r.0.state == s.state
            && r.0.verifier == s.verifier && r.0.deadline == s.deadline && r.0.callback == s.callback
            && r.0.token == s.token,
{
    let mut s = s;
    s.stage = SignInStage::Finished;
    (s, SignInAction::Finish(Err(message.to_owned())))
}

impl SignIn {
    /// The next stage and action after the event connecting waits for.
    pub fn step(self, event: SignInEvent) -> (r: (SignIn, SignInAction))
        requires
            sign_in_expects(self.stage, event),
        ensures
            r.0.client == self.client && r.0.scopes == self.scopes,
            !(event is Listening) ==> r.0.redirect == self.redirect && r.0.state == self.state && r.0.verifier
                == self.verifier,
            !(event is Opened) ==> r.0.deadline == self.deadline,
            !(event is Accepted) ==> r.0.callback == self.callback,
            !(event is Exchanged) ==> r.0.token == self.token,
            match event {
                SignInEvent::Listening { port } => match port {
                    None => ended_with(r, "Unable to start Google sign-in callback"@),
                    Some(p) => ended_with(r, "Unable to create secure Google sign-in state"@) || {
                        &&& r.0.stage == SignInStage::Opening
                        &&& r.0.redirect@ == loopback_redirect(p)
                        &&& is_secret(r.0.state@) && is_secret(r.0.verifier@)
                        &&& r.1 matches SignInAction::Open(q) && pairs_view(q@) == authorization_query(
                            self.client.client_id@,
                            loopback_redirect(p),
                            spaced(strings_view(self.scopes@)),
                            r.0.state@,
                            r.0.verifier@,
                        )
                    },
                },
                SignInEvent::Opened { opened, clock } => if !opened {
                    ended_with(r, "Unable to open Google sign-in in your browser"@)
                } else {
                    &&& r.0.stage == SignInStage::Ticking
                    &&& r.0.deadline == callback_deadline(clock)
                    &&& r.1 == SignInAction::Tick { pause: false }
                },
                SignInEvent::Ticked { canceled, clock } => if canceled {
                    ended_with(r, "Google sign-in canceled during shutdown"@)
                } else if clock > self.deadline {
                    ended_with(r, "Google sign-in timed out; try connecting again"@)
                } else {
                    r.0.stage == SignInStage::Accepting && r.1 is Accept
                },
                SignInEvent::Accepted { connection } => match connection {
                    Connection::Failed => ended_with(r, "Google sign-in callback failed"@),
                    Connection::Waiting => r.0.stage == SignInStage::Ticking && r.1 == SignInAction::Tick {
                        pause: true,
                    },
                    Connection::Request(line) => match callback_target(line@) {
                        None => r.0.stage == SignInStage::Ticking && r.1 == SignInAction::Tick { pause: false },
                        Some(target) => {
                            &&& r.0.stage == SignInStage::Answering
                            &&& r.1 matches SignInAction::Answer(response)
                            &&& match callback_result(callback_url_of(target), self.state@) {
                                Ok(c) => r.0.callback matches Ok(x) && x@ == c && response@ == plain_response(
                                    callback_message(true),
                                ),
                                Err(m) => r.0.callback matches Err(e) && e@ == m && response@ == plain_response(
                                    callback_message(false),
                                ),
                            }
                        },
                    },
                },
                SignInEvent::Answered => match self.callback {
                    Err(m) => ended_with(r, m@),
                    Ok(code) => {
                        &&& r.0.stage == SignInStage::Exchanging
                        &&& r.1 matches SignInAction::Exchange(form) && pairs_view(form@) == exchange_form(
                            self.client.client_id@,
                            self.client.client_secret@,
                            code@,
                            self.verifier@,
                            self.redirect@,
                        )
                    },
                },
                SignInEvent::Exchanged { response } => match response {
                    None => ended_with(r, "Google token exchange could not connect"@),
                    Some((status, token)) => if !(200 <= status < 300) {
                        ended_with(r, "Google sign-in could not be completed; reconnect"@)
                    } else {
                        match token {
                            None => ended_with(r, "Invalid Google sign-in response"@),
                            Some(t) => if t.refresh_token@.len() == 0 || t.access_token@.len() == 0 {
                                ended_with(
                                    r,
                                    "Google did not grant offline access. Connect again and approve access."@,
                                )
                            } else {
                                &&& r.0.stage == SignInStage::Identifying
                                &&& r.0.token == t
                                &&& r.1 matches SignInAction::Identify(a) && a@ == t.access_token@
                            },
                        }
                    },
                },
                SignInEvent::Identified { response, canceled, now } => match response {
                    None => ended_with(r, "Unable to verify connected Google account"@),
                    Some((status, identity)) => if !(200 <= status < 300) {
                        ended_with(r, "Unable to verify connected Google account"@)
                    } else {
                        match identity {
                            None => ended_with(r, "Invalid Google account identity response"@),
                            Some(id) => if !(id.email_verified && id.subject@.len() > 0 && id.email@.len() > 0) {
                                ended_with(r, "Google account email is not verified"@)
                            } else if canceled {
                                ended_with(r, "Google connection canceled; previous authorization retained"@)
                            } else {
                                &&& r.0.stage == SignInStage::Saving
                                &&& r.1 matches SignInAction::Save(c)
                                &&& c.client_id@ == self.client.client_id@
                                &&& c.subject@ == id.subject@ && c.email@ == id.email@
                                &&& c.refresh_token@ == self.token.refresh_token@
                                &&& c.access_token@ == self.token.access_token@
                                &&& c.expires_at == (if now + self.token.expires_in > u64::MAX {
                                    u64::MAX
                                } else {
                                    (now + self.token.expires_in) as u64
                                })
                                &&& strings_view(c.scopes@) == words(self.token.scope@)
                            },
                        }
                    },
                },
                SignInEvent::Saved { result } => r.0.stage == SignInStage::Finished && r.1
                    == SignInAction::Finish(result),
            },
    {
        let mut s = self;
        match event {
            SignInEvent::Listening { port } => {
                let p = match port {
                    None => {
                        return end(s, "Unable to start Google sign-in callback");
                    },
                    Some(p) => p,
                };
                let mut redirect = "http://127.0.0.1:".to_owned();
                let digits = crate::text::decimal(p as u64);
                redirect.append(digits.as_str());
                redirect.append("/");
                proof {
                    reveal_strlit("http://127.0.0.1:");
                    reveal_strlit("/");
                }
                let state = match random_secret() {
                    Err(m) => {
                        return end(s, m);
                    },
                    Ok(x) => x,
                };
                let verifier = match random_secret() {
                    Err(m) => {
                        return end(s, m);
                    },
                    Ok(x) => x,
                };
                let query = authorization_pairs(
                    s.client.client_id.as_str(),
                    redirect.as_str(),
                    &s.scopes,
                    state.as_str(),
                    verifier.as_str(),
                );
                s.stage = SignInStage::Opening;
                s.redirect = redirect;
                s.state = state;
                s.verifier = verifier;
                (s, SignInAction::Open(query))
            },
            SignInEvent::Opened { opened, clock } => {
                if !opened {
                    return end(s, "Unable to open Google sign-in in your browser");
                }
                s.stage = SignInStage::Ticking;
                s.deadline = clock.saturating_add(180000);
                (s, SignInAction::Tick { pause: false })
            },
            SignInEvent::Ticked { canceled, clock } => {
                if canceled {
                    return end(s, "Google sign-in canceled during shutdown");
                }
                if clock > s.deadline {
                    return end(s, "Google sign-in timed out; try connecting again");
                }
                s.stage = SignInStage::Accepting;
                (s, SignInAction::Accept)
            },
            SignInEvent::Accepted { connection } => {
                match connection {
                    Connection::Failed => end(s, "Google sign-in callback failed"),
                    Connection::Waiting => {
                        s.stage = SignInStage::Ticking;
                        (s, SignInAction::Tick { pause: true })
                    },
                    Connection::Request(line) => {
                        match on_callback_request(line.as_str(), s.state.as_str()) {
                            CallbackReply::Ignore => {
                                s.stage = SignInStage::Ticking;
                                (s, SignInAction::Tick { pause: false })
                            },
                            CallbackReply::Answer { response, code } => {
                                s.callback = match code {
                                    Ok(c) => Ok(c),
                                    Err(m) => Err(m.to_owned()),
                                };
                                s.stage = SignInStage::Answering;
                                (s, SignInAction::Answer(response))
                            },
                        }
                    },
                }
            },
            SignInEvent::Answered => {
                let code = match &s.callback {
                    Err(m) => {
                        let message = m.clone();
                        return end(s, message.as_str());
                    },
                    Ok(c) => c.clone(),
                };
                let mut form: Vec<(String, String)> = Vec::new();
                form.push(("client_id".to_owned(), s.client.client_id.clone()));
                form.push(("client_secret".to_owned(), s.client.client_secret.clone()));
                form.push(("code".to_owned(), code));
                form.push(("code_verifier".to_owned(), s.verifier.clone()));
                form.push(("redirect_uri".to_owned(), s.redirect.clone()));
                form.push(("grant_type".to_owned(), "authorization_code".to_owned()));
                assert(pairs_view(form@) =~= exchange_form(
                    s.client.client_id@,
                    s.client.client_secret@,
                    code@,
                    s.verifier@,
                    s.redirect@,
                ));
                s.stage = SignInStage::Exchanging;
                (s, SignInAction::Exchange(form))
            },
            SignInEvent::Exchanged { response } => {
                let (status, token) = match response {
                    None => {
                        return end(s, "Google token exchange could not connect");
                    },
                    Some(x) => x,
                };
                if !(200 <= status && status < 300) {
                    return end(s, "Google sign-in could not be completed; reconnect");
                }
                let t = match token {
                    None => {
                        return end(s, "Invalid Google sign-in response");
                    },
                    Some(t) => t,
                };
                match check_grant(&t) {
                    Err(m) => {
                        return end(s, m);
                    },
                    Ok(()) => {},
                }
                let access = t.access_token.clone();
                s.token = t;
                s.stage = SignInStage::Identifying;
                (s, SignInAction::Identify(access))
            },
            SignInEvent::Identified { response, canceled, now } => {
                let (status, identity) = match response {
                    None => {
                        return end(s, "Unable to verify connected Google account");
                    },
                    Some(x) => x,
                };
                if !(200 <= status && status < 300) {
                    return end(s, "Unable to verify connected Google account");
                }
                let id = match identity {
                    None => {
                        return end(s, "Invalid Google account identity response");
                    },
                    Some(id) => id,
                };
                match check_identity(id.subject.as_str(), id.email.as_str(), id.email_verified) {
                    Err(m) => {
                        return end(s, m);
                    },
                    Ok(()) => {},
                }
                if canceled {
                    return end(s, "Google connection canceled; previous authorization retained");
                }
                let token = Token {
                    access_token: s.token.access_token.clone(),
                    refresh_token: s.token.refresh_token.clone(),
                    scope: s.token.scope.clone(),
                    expires_in: s.token.expires_in,
                };
                let grant = new_credentials(s.client.client_id.clone(), id.subject, id.email, token, now);
                s.stage = SignInStage::Saving;
                (s, SignInAction::Save(grant))
            },
            SignInEvent::Saved { result } => {
                s.stage = SignInStage::Finished;
                (s, SignInAction::Finish(result))
            },
        }
    }
}

} // verus!


verus! {

proof fn lemma_scope_lengths()
    ensures
        "openid"@.len() == 6,
        "email"@.len() == 5,
        DRIVE_READ@.len() == 46,
        DRIVE_WRITE@.len() == 37,
        GROUPS@.len() == 38,
        DIRECTORY_GROUPS@.len() == 62,
        DIRECTORY_MEMBERS@.len() == 69,
{
    reveal_strlit("openid");
    reveal_strlit("email");
    reveal_strlit("https://www.googleapis.com/auth/drive.readonly");
    reveal_strlit("https://www.googleapis.com/auth/drive");
    reveal_strlit("https://www.googleapis.com/auth/groups");
    reveal_strlit("https://www.googleapis.com/auth/admin.directory.group.readonly");
    reveal_strlit("https://www.googleapis.com/auth/admin.directory.group.member.readonly");
}

/// A sign-in asks for the Workspace Directory scopes only for an administrator's setup,
/// and for full Drive access only when migrations are allowed: ordinary use never asks
/// for more access than the services chosen need.
pub proof fn law_no_more_access_than_chosen(settings: InventorySettings, setup: Setup)
    ensures
        !setup.directory_admin ==> !scopes_for(settings, setup).contains(DIRECTORY_GROUPS@)
            && !scopes_for(settings, setup).contains(DIRECTORY_MEMBERS@),
        !setup.migration_access ==> !scopes_for(settings, setup).contains(DRIVE_WRITE@),
{
    lemma_scope_lengths();
    let s = scopes_for(settings, setup);
    assert forall|i: int| 0 <= i < s.len() implies {
        &&& (!setup.directory_admin ==> s[i].len() != 62 && s[i].len() != 69)
        &&& (!setup.migration_access ==> s[i].len() != 37)
    } by {}
}

} // verus!

verus! {

/// Google's authorization endpoint.
pub const AUTHORIZATION_ENDPOINT: &'static str = "https://accounts.google.com/o/oauth2/v2/auth";

/// The address `reqwest::Url::parse_with_params` makes of `base` with `pairs` as its
/// form-encoded query, or the text of its parse error.
pub uninterp spec fn url_with_query_of(base: Seq<char>, pairs: Seq<(Seq<char>, Seq<char>)>) -> Result<Seq<char>, Seq<char>>;

pub open spec fn text_result_view(r: Result<String, String>) -> Result<Seq<char>, Seq<char>> {
    match r {
        Ok(s) => Ok(s@),
        Err(e) => Err(e@),
    }
}

/// `reqwest::Url::parse_with_params`, the URL written out as text; the result is named
/// by `url_with_query_of`.
#[verifier::external_body]
fn url_with_query(base: &str, pairs: &Vec<(String, String)>) -> (r: Result<String, String>)
    ensures
        text_result_view(r) == url_with_query_of(base@, pairs_view(pairs@)),
{
    match reqwest::Url::parse_with_params(base, pairs) {
        Ok(url) => Ok(url.to_string()),
        Err(e) => Err(e.to_string()),
    }
}

/// The authorization page to open: Google's endpoint with the sign-in query.
pub fn authorization_url(query: &Vec<(String, String)>) -> (r: Result<String, String>)
    ensures
        text_result_view(r) == url_with_query_of(AUTHORIZATION_ENDPOINT@, pairs_view(query@)),
{
    url_with_query(AUTHORIZATION_ENDPOINT, query)
}

} // verus!
