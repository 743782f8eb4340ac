//! The Google Desktop OAuth client that BOREAL signs in with: where its file lives and
//! which of its settings must be present.
use vstd::prelude::*;
use crate::paths::{join_path, joined_path};
use crate::text::{ends_with, str_eq, trim, trim_str};

verus! {

/// The Google app (OAuth client) that BOREAL uses.
#[derive(Clone)]
pub struct GoogleClientConfig {
    pub client_id: String,
    pub client_secret: String,
    pub project_id: Option<String>,
}

/// The `installed` section of a Google Desktop client file, as read.
#[derive(Debug, Clone)]
pub struct InstalledCredentials {
    pub client_id: String,
    pub client_secret: String,
    pub project_id: Option<String>,
    pub auth_uri: String,
    pub token_uri: String,
    pub redirect_uris: Vec<String>,
}

/// The first value stored under `key` in a list of named directories.
pub open spec fn directory_named(dirs: Seq<(Seq<char>, Seq<char>)>, key: Seq<char>) -> Option<Seq<char>>
    decreases dirs.len(),
{
    if dirs.len() == 0 {
        None
    } else if dirs[0].0 == key {
        Some(dirs[0].1)
    } else {
        directory_named(dirs.drop_first(), key)
    }
}

pub open spec fn directories_view(dirs: Seq<(String, String)>) -> Seq<(Seq<char>, Seq<char>)> {
    dirs.map_values(|d: (String, String)| (d.0@, d.1@))
}

/// Looks up a named directory of the runtime.
pub fn find_directory(dirs: &Vec<(String, String)>, key: &str) -> (r: Option<String>)
    ensures
        match directory_named(directories_view(dirs@), key@) {
            Some(d) => r matches Some(s) && s@ == d,
            None => r is None,
        },
{
    let ghost dv = directories_view(dirs@);
    let mut k: usize = 0;
    assert(dv.skip(0) =~= dv);
    while k < dirs.len()
        invariant
            k <= dirs@.len(),
            dv == directories_view(dirs@),
            directory_named(dv, key@) == directory_named(dv.skip(k as int), key@),
        decreases dirs.len() - k,
    {
        assert(dv.skip(k as int)[0] == dv[k as int]);
        assert(dv.skip(k as int).drop_first() =~= dv.skip(k + 1));
        if str_eq(dirs[k].0.as_str(), key) {
            return Some(dirs[k].1.clone());
        }
        k = k + 1;
    }
    None
}

/// The path of BOREAL's Google client file: `google-client.json` in the `CONF`
/// directory of the runtime (`directories`: each directory's name and path).
pub fn path(directories: &Vec<(String, String)>) -> (r: Result<String, String>)
    ensures
        match directory_named(directories_view(directories@), "CONF"@) {
            Some(d) => r matches Ok(p) && p@ == joined_path(d, "google-client.json"@),
            None => r matches Err(m) && m@ == "BOREAL CONF directory is not configured"@,
        },
{
    match find_directory(directories, "CONF") {
        Some(d) => Ok(join_path(d.as_str(), "google-client.json")),
        None => Err("BOREAL CONF directory is not configured".to_owned()),
    }
}

/// The first problem with a Desktop client file, field by field; `None` when it could
/// not be read as one.
pub open spec fn client_problem(c: Option<InstalledCredentials>) -> Option<Seq<char>> {
    match c {
        None => Some("Invalid Google Desktop client JSON"@),
        Some(i) => if trim(i.client_id@).len() == 0 {
            Some("Google client_id is missing"@)
        } else if !crate::text::ends_with_spec(i.client_id@, ".apps.googleusercontent.com"@) {
            Some("Google client_id does not appear to be a valid OAuth Client ID"@)
        } else if trim(i.client_secret@).len() == 0 {
            Some("Google client_secret is missing"@)
        } else if trim(i.auth_uri@).len() == 0 {
            Some("Google auth_uri is missing"@)
        } else if trim(i.token_uri@).len() == 0 {
            Some("Google token_uri is missing"@)
        } else {
            None
        },
    }
}

/// Checks a Google Desktop client file (`None`: it could not be read as one) and
/// returns the app it describes.
pub fn validate(parsed: Option<InstalledCredentials>) -> (r: Result<GoogleClientConfig, String>)
    ensures
        match client_problem(parsed) {
            Some(m) => r matches Err(e) && e@ == m,
            None => r matches Ok(c) && c.client_id@ == parsed->0.client_id@ && c.client_secret@
                == parsed->0.client_secret@ && c.project_id == parsed->0.project_id,
        },
{
    let installed = match parsed {
        None => {
            return Err("Invalid Google Desktop client JSON".to_owned());
        },
        Some(i) => i,
    };
    if trim_str(installed.client_id.as_str()).as_str().is_empty() {
        return Err("Google client_id is missing".to_owned());
    }
    if !ends_with(installed.client_id.as_str(), ".apps.googleusercontent.com") {
        return Err("Google client_id does not appear to be a valid OAuth Client ID".to_owned());
    }
    if trim_str(installed.client_secret.as_str()).as_str().is_empty() {
        return Err("Google client_secret is missing".to_owned());
    }
    if trim_str(installed.auth_uri.as_str()).as_str().is_empty() {
        return Err("Google auth_uri is missing".to_owned());
    }
    if trim_str(installed.token_uri.as_str()).as_str().is_empty() {
        return Err("Google token_uri is missing".to_owned());
    }
    Ok(
        GoogleClientConfig {
            client_id: installed.client_id,
            client_secret: installed.client_secret,
            project_id: installed.project_id,
        },
    )
}

} // verus!
