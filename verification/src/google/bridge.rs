//! The per-process token bridge for Rclone: only BOREAL holds Google's refresh token.
//! Rclone gets a temporary configuration whose token endpoint is a local bridge that
//! answers only requests carrying a short-lived local secret.
use vstd::prelude::*;
use crate::google::auth::{DRIVE_READ, DRIVE_WRITE, key_count, parse_callback, callback_url_of, sha256, sha256_of};
use crate::google::my_groups::{byte_len, hex_of, hex_string};
use crate::rclone::remotes::{lines_of, text_lines};
use crate::text::{chars_of, decimal, decimal_of, starts_with, starts_with_str, str_eq, string_from_chars, trim, trim_str};
use crate::update::{parse_u64, parse_u64_spec};

verus! {

/// A member value of the JSON objects the bridge writes: a string or a number.
pub enum JsonField {
    Text(String),
    Number(u64),
}

pub enum JsonFieldView {
    Text(Seq<char>),
    Number(u64),
}

impl View for JsonField {
    type V = JsonFieldView;

    open spec fn view(&self) -> JsonFieldView {
        match self {
            JsonField::Text(t) => JsonFieldView::Text(t@),
            JsonField::Number(n) => JsonFieldView::Number(*n),
        }
    }
}

/// Object members as plain values.
pub open spec fn members_view(m: Seq<(&str, JsonField)>) -> Seq<(Seq<char>, JsonFieldView)> {
    m.map_values(|kv: (&str, JsonField)| (kv.0@, kv.1@))
}

/// The JSON text `serde_json` writes for the object with these members, inserted in
/// this order into a `serde_json::Map` (`Value::to_string`).
pub uninterp spec fn json_object_of(members: Seq<(Seq<char>, JsonFieldView)>) -> Seq<char>;

/// `serde_json::Value::to_string` of the object with these members, each value
/// converted to a JSON string or number; the result is named by `json_object_of`.
#[verifier::external_body]
fn json_object(members: Vec<(&str, JsonField)>) -> (r: String)
    ensures
        r@ == json_object_of(members_view(members@)),
{
    let mut object = serde_json::Map::new();
    for (key, value) in members {
        object.insert(key.to_owned(), match value {
            JsonField::Text(text) => serde_json::Value::String(text),
            JsonField::Number(n) => serde_json::Value::from(n),
        });
    }
    serde_json::Value::Object(object).to_string()
}

/// Whether a Rclone command addresses the writable remote.
pub open spec fn writes_spec(args: Seq<Seq<char>>) -> bool {
    exists|k: int|
        0 <= k < args.len() && (starts_with(#[trigger] args[k], "my-drive-rw:"@) || starts_with(
            args[k],
            "my-drive-rw,"@,
        ))
}

pub fn writes(args: &Vec<String>) -> (r: bool)
    ensures
        r == writes_spec(crate::text::strings_view(args@)),
{
    let ghost av = crate::text::strings_view(args@);
    let mut k: usize = 0;
    while k < args.len()
        invariant
            k <= args@.len(),
            av == crate::text::strings_view(args@),
            forall|m: int|
                0 <= m < k ==> !(starts_with(#[trigger] av[m], "my-drive-rw:"@) || starts_with(av[m], "my-drive-rw,"@)),
        decreases args.len() - k,
    {
        assert(av[k as int] == args@[k as int]@);
        if starts_with_str(args[k].as_str(), "my-drive-rw:") || starts_with_str(args[k].as_str(), "my-drive-rw,") {
            return true;
        }
        k = k + 1;
    }
    false
}

/// The Google scope the bridge serves: full Drive for a command that writes (which
/// needs migration write access), read-only Drive otherwise.
pub fn bridge_scope(writes: bool, migration_access: bool) -> (r: Result<&'static str, String>)
    ensures
        writes && !migration_access ==> (r matches Err(m) && m@
            == "Enable migration write access in Settings → Google connection first."@),
        !(writes && !migration_access) ==> (r matches Ok(s) && s@ == if writes {
            DRIVE_WRITE@
        } else {
            DRIVE_READ@
        }),
{
    if writes && !migration_access {
        return Err("Enable migration write access in Settings → Google connection first.".to_owned());
    }
    Ok(
        if writes {
            DRIVE_WRITE
        } else {
            DRIVE_READ
        },
    )
}

/// The bridge's token endpoint on the loopback port.
pub fn token_endpoint(port: u16) -> (r: String)
    ensures
        r@ == "http://127.0.0.1:"@ + decimal_of(port as nat) + "/token"@,
{
    let mut r = "http://127.0.0.1:".to_owned();
    let p = decimal(port as u64);
    r.append(p.as_str());
    r.append("/token");
    r
}

/// The token Rclone starts with: already expired, so that Rclone renews it at once,
/// with the local secret as its refresh token.
pub open spec fn bridge_token_text(secret: Seq<char>) -> Seq<char> {
    json_object_of(
        seq![
            ("access_token"@, JsonFieldView::Text("pending"@)),
            ("token_type"@, JsonFieldView::Text("Bearer"@)),
            ("refresh_token"@, JsonFieldView::Text(secret)),
            ("expiry"@, JsonFieldView::Text("1970-01-01T00:00:00Z"@)),
        ],
    )
}

pub fn bridge_token(secret: &str) -> (r: String)
    ensures
        r@ == bridge_token_text(secret@),
{
    let members = vec![
        ("access_token", JsonField::Text("pending".to_owned())),
        ("token_type", JsonField::Text("Bearer".to_owned())),
        ("refresh_token", JsonField::Text(secret.to_owned())),
        ("expiry", JsonField::Text("1970-01-01T00:00:00Z".to_owned())),
    ];
    assert(members_view(members@) =~= seq![
        ("access_token"@, JsonFieldView::Text("pending"@)),
        ("token_type"@, JsonFieldView::Text("Bearer"@)),
        ("refresh_token"@, JsonFieldView::Text(secret@)),
        ("expiry"@, JsonFieldView::Text("1970-01-01T00:00:00Z"@)),
    ]);
    json_object(members)
}

/// One remote of the temporary configuration: a Drive remote whose tokens come from
/// the bridge.
pub open spec fn remote_section(remote: Seq<char>, writes: bool, endpoint: Seq<char>, token: Seq<char>) -> Seq<char> {
    "["@ + remote + "]\ntype = drive\nclient_id = boreal-local\nclient_secret =\nscope = "@ + (if writes {
        "drive"@
    } else {
        "drive.readonly"@
    }) + "\ntoken_url = "@ + endpoint + "\ntoken = "@ + token + "\n\n"@
}

/// The temporary configuration: both managed remotes, on the bridge.
pub open spec fn bridge_config_text(writes: bool, endpoint: Seq<char>, token: Seq<char>) -> Seq<char> {
    remote_section("my-drive-ro"@, writes, endpoint, token) + remote_section("my-drive-rw"@, writes, endpoint, token)
}

fn append_section(text: &mut String, remote: &str, writes: bool, endpoint: &str, token: &str)
    ensures
        final(text)@ == old(text)@ + remote_section(remote@, writes, endpoint@, token@),
{
    text.append("[");
    text.append(remote);
    text.append("]\ntype = drive\nclient_id = boreal-local\nclient_secret =\nscope = ");
    text.append(
        if writes {
            "drive"
        } else {
            "drive.readonly"
        },
    );
    text.append("\ntoken_url = ");
    text.append(endpoint);
    text.append("\ntoken = ");
    text.append(token);
    text.append("\n\n");
}

pub fn bridge_config(writes: bool, endpoint: &str, token: &str) -> (r: String)
    ensures
        r@ == bridge_config_text(writes, endpoint@, token@),
{
    let mut text = String::new();
    append_section(&mut text, "my-drive-ro", writes, endpoint, token);
    append_section(&mut text, "my-drive-rw", writes, endpoint, token);
    text
}

/// The name of the temporary configuration file: the hexadecimal SHA-256 of the
/// secret, so that the name reveals nothing of it.
pub fn config_file_name(secret: &str) -> (r: String)
    ensures
        r@ == ".google-rclone-"@ + hex_of(sha256_of(vstd::utf8::encode_utf8(secret@))) + ".conf"@,
{
    let digest = sha256(secret.as_bytes());
    let mut r = ".google-rclone-".to_owned();
    let h = hex_string(&digest);
    r.append(h.as_str());
    r.append(".conf");
    r
}

/// A command's arguments without its configuration: `--config` and the argument after
/// it, and `--config=...`.
pub open spec fn strip_config(args: Seq<Seq<char>>) -> Seq<Seq<char>>
    decreases args.len(),
{
    if args.len() == 0 {
        seq![]
    } else if args[0] == "--config"@ {
        if args.len() >= 2 {
            strip_config(args.skip(2))
        } else {
            seq![]
        }
    } else if starts_with(args[0], "--config="@) {
        strip_config(args.drop_first())
    } else {
        seq![args[0]] + strip_config(args.drop_first())
    }
}

/// The arguments with their configuration replaced by the temporary one, so that the
/// command has exactly one.
pub fn replace_config(args: &Vec<String>, path: &str) -> (r: Vec<String>)
    ensures
        crate::text::strings_view(r@) == strip_config(crate::text::strings_view(args@)) + seq!["--config"@, path@],
{
    let ghost av = crate::text::strings_view(args@);
    let mut out: Vec<String> = Vec::new();
    let mut i: usize = 0;
    assert(av.skip(0) =~= av);
    while i < args.len()
        invariant
            i <= args@.len(),
            av == crate::text::strings_view(args@),
            crate::text::strings_view(out@) + strip_config(av.skip(i as int)) == strip_config(av),
        decreases args.len() - i,
    {
        let ghost rest = av.skip(i as int);
        assert(rest[0] == args@[i as int]@);
        assert(rest.drop_first() =~= av.skip(i + 1));
        if str_eq(args[i].as_str(), "--config") {
            if i + 1 < args.len() {
                assert(rest.skip(2) =~= av.skip(i + 2));
                i = i + 2;
            } else {
                assert(av.skip(i + 1) =~= seq![]);
                i = i + 1;
            }
        } else if starts_with_str(args[i].as_str(), "--config=") {
            i = i + 1;
        } else {
            let ghost before = crate::text::strings_view(out@);
            out.push(args[i].clone());
            assert(crate::text::strings_view(out@) =~= before.push(rest[0]));
            assert(before + strip_config(rest) =~= crate::text::strings_view(out@) + strip_config(av.skip(i + 1)));
            i = i + 1;
        }
    }
    assert(av.skip(i as int) =~= seq![]);
    let ghost before = crate::text::strings_view(out@);
    out.push("--config".to_owned());
    out.push(path.to_owned());
    assert(crate::text::strings_view(out@) =~= before + seq!["--config"@, path@]);
    out
}

/// The proxy bypass list that keeps Rclone's token requests on the loopback bridge.
pub fn proxy_bypass(existing: &str) -> (r: String)
    ensures
        r@ == existing@ + ",127.0.0.1,localhost"@,
{
    let mut r = existing.to_owned();
    r.append(",127.0.0.1,localhost");
    r
}

/// `char::to_ascii_uppercase`.
pub open spec fn ascii_upper(c: char) -> char {
    if 'a' <= c && c <= 'z' {
        ((c as u32) - 32) as char
    } else {
        c
    }
}

pub open spec fn ascii_uppercase(s: Seq<char>) -> Seq<char> {
    s.map_values(|c: char| ascii_upper(c))
}

fn to_ascii_uppercase(s: &str) -> (r: String)
    ensures
        r@ == ascii_uppercase(s@),
{
    let v = chars_of(s);
    let mut out: Vec<char> = Vec::new();
    let mut i: usize = 0;
    while i < v.len()
        invariant
            i <= v@.len(),
            v@ == s@,
            out@ == ascii_uppercase(s@).take(i as int),
        decreases v.len() - i,
    {
        let c = v[i];
        let u = if 'a' <= c && c <= 'z' {
            ((c as u8) - 32) as char
        } else {
            c
        };
        assert(u == ascii_upper(c)) by {
            if 'a' <= c && c <= 'z' {
                assert((c as u32) < 128);
            }
        }
        out.push(u);
        assert(out@ =~= ascii_uppercase(s@).take(i + 1));
        i = i + 1;
    }
    assert(ascii_uppercase(s@).take(v@.len() as int) =~= ascii_uppercase(s@));
    string_from_chars(out.as_slice())
}

/// The environment settings that could make Rclone use another Google account: the
/// managed remotes' overrides and Drive credentials (names compared in ASCII upper case).
pub open spec fn account_override(name: Seq<char>) -> bool {
    let upper = ascii_uppercase(name);
    starts_with(upper, "RCLONE_CONFIG_MY_DRIVE_RO_"@) || starts_with(upper, "RCLONE_CONFIG_MY_DRIVE_RW_"@)
        || starts_with(upper, "RCLONE_CONFIG_MY-DRIVE-RO_"@) || starts_with(upper, "RCLONE_CONFIG_MY-DRIVE-RW_"@)
        || upper == "RCLONE_DRIVE_TOKEN"@ || upper == "RCLONE_DRIVE_CLIENT_ID"@ || upper == "RCLONE_DRIVE_CLIENT_SECRET"@
        || upper == "RCLONE_DRIVE_TOKEN_URL"@ || upper == "RCLONE_DRIVE_AUTH_URL"@ || upper
        == "RCLONE_DRIVE_SERVICE_ACCOUNT_FILE"@ || upper == "RCLONE_DRIVE_SERVICE_ACCOUNT_CREDENTIALS"@ || upper
        == "RCLONE_DRIVE_CLIENT_CREDENTIALS"@
}

/// Whether an environment variable is removed from Rclone's environment.
pub fn overrides_account(name: &str) -> (r: bool)
    ensures
        r == account_override(name@),
{
    let u = to_ascii_uppercase(name);
    let s = u.as_str();
    starts_with_str(s, "RCLONE_CONFIG_MY_DRIVE_RO_") || starts_with_str(s, "RCLONE_CONFIG_MY_DRIVE_RW_")
        || starts_with_str(s, "RCLONE_CONFIG_MY-DRIVE-RO_") || starts_with_str(s, "RCLONE_CONFIG_MY-DRIVE-RW_")
        || str_eq(s, "RCLONE_DRIVE_TOKEN") || str_eq(s, "RCLONE_DRIVE_CLIENT_ID") || str_eq(
        s,
        "RCLONE_DRIVE_CLIENT_SECRET",
    ) || str_eq(s, "RCLONE_DRIVE_TOKEN_URL") || str_eq(s, "RCLONE_DRIVE_AUTH_URL") || str_eq(
        s,
        "RCLONE_DRIVE_SERVICE_ACCOUNT_FILE",
    ) || str_eq(s, "RCLONE_DRIVE_SERVICE_ACCOUNT_CREDENTIALS") || str_eq(s, "RCLONE_DRIVE_CLIENT_CREDENTIALS")
}

} // verus!

verus! {

/// The position of the first `:` in a line.
pub open spec fn first_colon(line: Seq<char>) -> Option<int> {
    if line.contains(':') {
        Some(choose|i: int| 0 <= i < line.len() && line[i] == ':' && !line.take(i).contains(':'))
    } else {
        None
    }
}

/// Whether a header line names `Content-Length` (before its first `:`, in any case).
pub open spec fn is_length_line(line: Seq<char>) -> bool {
    match first_colon(line) {
        Some(i) => crate::local_files::ascii_lowercase(line.take(i)) == "content-length"@,
        None => false,
    }
}

/// The value of a header line (after its first `:`).
pub open spec fn header_value(line: Seq<char>) -> Seq<char> {
    match first_colon(line) {
        Some(i) => line.skip(i + 1),
        None => seq![],
    }
}

/// How many lines name `Content-Length`.
pub open spec fn length_lines(lines: Seq<Seq<char>>) -> nat
    decreases lines.len(),
{
    if lines.len() == 0 {
        0
    } else {
        length_lines(lines.drop_last()) + if is_length_line(lines.last()) {
            1nat
        } else {
            0nat
        }
    }
}

/// The value of the last line naming `Content-Length`.
pub open spec fn length_value(lines: Seq<Seq<char>>) -> Seq<char>
    decreases lines.len(),
{
    if lines.len() == 0 {
        seq![]
    } else if is_length_line(lines.last()) {
        header_value(lines.last())
    } else {
        length_value(lines.drop_last())
    }
}

/// The body length a token request announces, when its headers are acceptable: a
/// `POST /token` request, complete, with exactly one `Content-Length` of at most 8,192
/// bytes and no `Transfer-Encoding`.
pub open spec fn request_length(headers: Seq<char>) -> Option<u64> {
    let lines = text_lines(headers);
    if !starts_with(headers, "POST /token HTTP/1.1\r\n"@) || !crate::text::ends_with_spec(headers, "\r\n\r\n"@) {
        None
    } else if length_lines(lines) != 1 || exists|k: int|
        0 <= k < lines.len() && starts_with(crate::local_files::ascii_lowercase(#[trigger] lines[k]), "transfer-encoding:"@) {
        None
    } else {
        match parse_u64_spec(trim(length_value(lines))) {
            Some(n) => if n <= 8192 {
                Some(n)
            } else {
                None
            },
            None => None,
        }
    }
}

fn split_header(line: &Vec<char>) -> (r: Option<(Vec<char>, Vec<char>)>)
    ensures
        match first_colon(line@) {
            Some(i) => r matches Some((k, v)) && k@ == line@.take(i) && v@ == line@.skip(i + 1),
            None => r is None,
        },
{
    let mut i: usize = 0;
    while i < line.len()
        invariant
            i <= line@.len(),
            !line@.take(i as int).contains(':'),
        decreases line.len() - i,
    {
        if line[i] == ':' {
            proof {
                assert(line@.contains(':'));
                let j = choose|j: int| 0 <= j < line@.len() && line@[j] == ':' && !line@.take(j).contains(':');
                if j < i {
                    assert(line@.take(i as int)[j] == ':');
                } else if j > i {
                    assert(line@.take(j)[i as int] == ':');
                }
            }
            let k = crate::text::slice_chars(line.as_slice(), 0, i);
            let v = crate::text::slice_chars(line.as_slice(), i + 1, line.len());
            return Some((k, v));
        }
        assert(line@.take(i + 1) =~= line@.take(i as int).push(line@[i as int]));
        i = i + 1;
    }
    assert(line@.take(line@.len() as int) =~= line@);
    None
}

/// The checks of a token request's headers (read as text); the announced body length
/// when they pass.
pub fn check_request_headers(headers: &str) -> (r: Option<u64>)
    ensures
        r == request_length(headers@),
{
    if !starts_with_str(headers, "POST /token HTTP/1.1\r\n") || !crate::text::ends_with(headers, "\r\n\r\n") {
        return None;
    }
    let lines = lines_of(headers);
    let ghost lv = text_lines(headers@);
    let mut count: usize = 0;
    let mut value: Vec<char> = Vec::new();
    let mut encoded = false;
    let mut k: usize = 0;
    while k < lines.len()
        invariant
            k <= lines@.len(),
            lines.deep_view() == lv,
            count == length_lines(lv.take(k as int)),
            count <= k,
            value@ == length_value(lv.take(k as int)),
            encoded == exists|m: int|
                0 <= m < k && starts_with(crate::local_files::ascii_lowercase(#[trigger] lv[m]), "transfer-encoding:"@),
        decreases lines.len() - k,
    {
        assert(lines@[k as int]@ == lv[k as int]);
        assert(lv.take(k + 1).drop_last() =~= lv.take(k as int));
        assert(lv.take(k + 1).last() == lv[k as int]);
        let text = string_from_chars(lines[k].as_slice());
        let lower = crate::local_files::to_ascii_lowercase(text.as_str());
        if starts_with_str(lower.as_str(), "transfer-encoding:") {
            encoded = true;
        }
        match split_header(&lines[k]) {
            Some((key, v)) => {
                let key_text = string_from_chars(key.as_slice());
                let key_lower = crate::local_files::to_ascii_lowercase(key_text.as_str());
                if str_eq(key_lower.as_str(), "content-length") {
                    count = count + 1;
                    value = v;
                }
            },
            None => {},
        }
        k = k + 1;
    }
    assert(lv.take(lv.len() as int) =~= lv);
    if count != 1 || encoded {
        return None;
    }
    let trimmed = crate::text::trim_chars(value.as_slice());
    match parse_u64(trimmed.as_slice()) {
        Some(n) => if n <= 8192 {
            Some(n)
        } else {
            None
        },
        None => None,
    }
}

pub open spec fn form_view(p: Seq<(String, String)>) -> Seq<(Seq<char>, Seq<char>)> {
    p.map_values(|x: (String, String)| (x.0@, x.1@))
}

/// The pairs of a form-encoded body as a URL parser reads a query.
pub open spec fn form_pairs_of(body: Seq<char>) -> Seq<(Seq<char>, Seq<char>)> {
    match callback_url_of("/?"@ + body) {
        Some((_, pairs)) => pairs,
        None => seq![],
    }
}

/// The pairs of a token request's body (read as text).
pub fn form_pairs(body: &str) -> (r: Vec<(String, String)>)
    ensures
        form_view(r@) == form_pairs_of(body@),
{
    let mut target = "/?".to_owned();
    target.append(body);
    match parse_callback(target.as_str()) {
        Some((_, pairs)) => pairs,
        None => {
            let none: Vec<(String, String)> = Vec::new();
            assert(form_view(none@) =~= seq![]);
            none
        },
    }
}

/// A token request is answered only when it carries the local secret as its single
/// refresh token and asks for a refresh.
pub open spec fn request_authorized(pairs: Seq<(Seq<char>, Seq<char>)>, secret: Seq<char>) -> bool {
    key_count(pairs, "refresh_token"@) == 1 && pairs.contains(("refresh_token"@, secret)) && pairs.contains(
        ("grant_type"@, "refresh_token"@),
    )
}

pub fn token_request_ok(pairs: &Vec<(String, String)>, secret: &str) -> (r: bool)
    ensures
        r == request_authorized(form_view(pairs@), secret@),
{
    let ghost pv = form_view(pairs@);
    let mut count: usize = 0;
    let mut has_secret = false;
    let mut has_grant = false;
    let mut k: usize = 0;
    while k < pairs.len()
        invariant
            k <= pairs@.len(),
            pv == form_view(pairs@),
            count == key_count(pv.take(k as int), "refresh_token"@),
            count <= k,
            has_secret == pv.take(k as int).contains(("refresh_token"@, secret@)),
            has_grant == pv.take(k as int).contains(("grant_type"@, "refresh_token"@)),
        decreases pairs.len() - k,
    {
        let ghost t = pv.take(k + 1);
        assert(t.drop_last() =~= pv.take(k as int));
        assert(t.last() == pv[k as int]);
        assert(pv[k as int] == (pairs@[k as int].0@, pairs@[k as int].1@));
        let is_refresh = str_eq(pairs[k].0.as_str(), "refresh_token");
        if is_refresh {
            count = count + 1;
        }
        if is_refresh && str_eq(pairs[k].1.as_str(), secret) {
            has_secret = true;
        }
        if str_eq(pairs[k].0.as_str(), "grant_type") && str_eq(pairs[k].1.as_str(), "refresh_token") {
            has_grant = true;
        }
        proof {
            assert(t =~= pv.take(k as int).push(pv[k as int]));
            vstd::seq_lib::lemma_seq_contains_after_push(pv.take(k as int), pv[k as int], ("refresh_token"@, secret@));
            vstd::seq_lib::lemma_seq_contains_after_push(
                pv.take(k as int),
                pv[k as int],
                ("grant_type"@, "refresh_token"@),
            );
        }
        k = k + 1;
    }
    assert(pv.take(pv.len() as int) =~= pv);
    count == 1 && has_secret && has_grant
}

/// The body of a refused token request.
pub open spec fn refused_body() -> Seq<char> {
    "{\"error\":\"invalid_grant\",\"error_description\":\"Google connection needs attention in Boreal Settings\"}"@
}

/// The body of a granted token request.
pub open spec fn granted_body(access: Seq<char>, expires_in: u64, secret: Seq<char>) -> Seq<char> {
    json_object_of(
        seq![
            ("access_token"@, JsonFieldView::Text(access)),
            ("token_type"@, JsonFieldView::Text("Bearer"@)),
            ("expires_in"@, JsonFieldView::Number(expires_in)),
            ("refresh_token"@, JsonFieldView::Text(secret)),
        ],
    )
}

/// The bridge's HTTP answer: the access token (with the local secret standing in for
/// the refresh token) when the request was authorized for the same account and a token
/// could be had, else a refusal that asks Rclone to stop.
pub open spec fn bridge_reply(granted: Option<(Seq<char>, u64)>, secret: Seq<char>) -> Seq<char> {
    let (status, body) = match granted {
        Some((access, expires)) => ("200 OK"@, granted_body(access, expires, secret)),
        None => ("400 Bad Request"@, refused_body()),
    };
    "HTTP/1.1 "@ + status + "\r\nContent-Type: application/json\r\nCache-Control: no-store\r\nConnection: close\r\nContent-Length: "@
        + decimal_of(byte_len(body)) + "\r\n\r\n"@ + body
}

pub fn token_reply(granted: Option<(String, u64)>, secret: &str) -> (r: String)
    ensures
        r@ == bridge_reply(
            match granted {
                Some((a, e)) => Some((a@, e)),
                None => None,
            },
            secret@,
        ),
{
    let (status, body) = match granted {
        Some((access, expires)) => {
            let ghost av = access@;
            let members = vec![
                ("access_token", JsonField::Text(access)),
                ("token_type", JsonField::Text("Bearer".to_owned())),
                ("expires_in", JsonField::Number(expires)),
                ("refresh_token", JsonField::Text(secret.to_owned())),
            ];
            assert(members_view(members@) =~= seq![
                ("access_token"@, JsonFieldView::Text(av)),
                ("token_type"@, JsonFieldView::Text("Bearer"@)),
                ("expires_in"@, JsonFieldView::Number(expires)),
                ("refresh_token"@, JsonFieldView::Text(secret@)),
            ]);
            let b = json_object(members);
            ("200 OK", b)
        },
        None => (
            "400 Bad Request",
            "{\"error\":\"invalid_grant\",\"error_description\":\"Google connection needs attention in Boreal Settings\"}".to_owned(),
        ),
    };
    let mut r = "HTTP/1.1 ".to_owned();
    r.append(status);
    r.append("\r\nContent-Type: application/json\r\nCache-Control: no-store\r\nConnection: close\r\nContent-Length: ");
    let n = body.as_str().len();
    let len = decimal(n as u64);
    r.append(len.as_str());
    r.append("\r\n\r\n");
    r.append(body.as_str());
    r
}

} // verus!

verus! {

proof fn lemma_strip_config_clean(args: Seq<Seq<char>>)
    ensures
        forall|i: int|
            0 <= i < strip_config(args).len() ==> #[trigger] strip_config(args)[i] != "--config"@ && !starts_with(
                strip_config(args)[i],
                "--config="@,
            ),
    decreases args.len(),
{
    if args.len() == 0 {
    } else if args[0] == "--config"@ {
        if args.len() >= 2 {
            lemma_strip_config_clean(args.skip(2));
            assert(strip_config(args) == strip_config(args.skip(2)));
        } else {
            assert(strip_config(args).len() == 0);
        }
    } else if starts_with(args[0], "--config="@) {
        lemma_strip_config_clean(args.drop_first());
        assert(strip_config(args) == strip_config(args.drop_first()));
    } else {
        lemma_strip_config_clean(args.drop_first());
        let rest = strip_config(args.drop_first());
        assert forall|i: int| 0 <= i < strip_config(args).len() implies #[trigger] strip_config(args)[i] != "--config"@
            && !starts_with(strip_config(args)[i], "--config="@) by {
            assert(strip_config(args) == seq![args[0]] + rest);
            if i > 0 {
                assert(strip_config(args)[i] == rest[i - 1]);
            } else {
                assert(strip_config(args)[0] == args[0]);
            }
        }
    }
}

/// A command that goes through the bridge has exactly one configuration: the
/// temporary one, last; none of its own `--config` options remain.
pub proof fn law_one_configuration(args: Seq<Seq<char>>, path: Seq<char>)
    requires
        path != "--config"@,
    ensures
        ({
            let r = strip_config(args) + seq!["--config"@, path];
            &&& r[r.len() - 2] == "--config"@
            &&& r[r.len() - 1] == path
            &&& forall|i: int| 0 <= i < r.len() && #[trigger] r[i] == "--config"@ ==> i == r.len() - 2
            &&& forall|i: int| 0 <= i < r.len() - 2 ==> !starts_with(#[trigger] r[i], "--config="@)
        }),
{
    lemma_strip_config_clean(args);
    let s = strip_config(args);
    let r = s + seq!["--config"@, path];
    assert forall|i: int| 0 <= i < r.len() && #[trigger] r[i] == "--config"@ implies i == r.len() - 2 by {
        if i < s.len() {
            assert(r[i] == s[i]);
        }
    }
    assert forall|i: int| 0 <= i < r.len() - 2 implies !starts_with(#[trigger] r[i], "--config="@) by {
        assert(r[i] == s[i]);
    }
}

} // verus!
