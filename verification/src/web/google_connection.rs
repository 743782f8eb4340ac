//! The Google connection settings page: the setup a submitted form asks for, what
//! blocks a sign-in, and the report of the access checks.
use vstd::prelude::*;
use crate::google::auth::{Setup, deployment_ok};
use crate::text::{decimal, decimal_of, trim, trim_str};

verus! {

/// The submitted connection form: the services chosen and the Groups setup.
#[derive(Debug, Clone, Default)]
pub struct ConnectionForm {
    pub drive: bool,
    pub groups: bool,
    pub sheet_url: String,
    pub migration_access: bool,
    pub directory_admin: bool,
    pub groups_deployment: String,
}

/// The setup a form asks for: its deployment ID trimmed, refused when it is not a plain
/// deployment ID.
pub fn form_setup(form: &ConnectionForm) -> (r: Result<Setup, String>)
    ensures
        deployment_ok(trim(form.groups_deployment@)) ==> (r matches Ok(s) && s.groups_deployment@ == trim(
            form.groups_deployment@,
        ) && s.directory_admin == form.directory_admin && s.migration_access == form.migration_access),
        !deployment_ok(trim(form.groups_deployment@)) ==> (r matches Err(m) && m@
            == "Enter the Apps Script deployment ID, not a URL."@),
{
    let setup = Setup {
        groups_deployment: trim_str(form.groups_deployment.as_str()),
        directory_admin: form.directory_admin,
        migration_access: form.migration_access,
    };
    match setup.validate() {
        Ok(()) => Ok(setup),
        Err(m) => Err(m.to_owned()),
    }
}

/// My Groups without Directory access needs the shared helper's deployment before the
/// sign-in can ask for it.
pub fn connect_blocker(groups_enabled: bool, setup: &Setup) -> (r: Result<(), String>)
    ensures
        (groups_enabled && !setup.directory_admin && setup.groups_deployment@.len() == 0) ==> (r matches Err(m) && m@
            == "My Groups needs the shared helper deployment ID below. Complete that one-time project step, or deselect Groups to connect your other services now."@),
        !(groups_enabled && !setup.directory_admin && setup.groups_deployment@.len() == 0) ==> r is Ok,
{
    if groups_enabled && !setup.directory_admin && setup.groups_deployment.as_str().is_empty() {
        return Err(
            "My Groups needs the shared helper deployment ID below. Complete that one-time project step, or deselect Groups to connect your other services now.".to_owned(),
        );
    }
    Ok(())
}

/// The outcome of each check that ran (`None`: the service is not enabled).
pub struct AccessChecks {
    pub drive: Option<Result<(), String>>,
    pub sheet: Option<Result<(), String>>,
    pub groups: Option<Result<u64, String>>,
    /// Whether migration write access was granted, when it was asked for.
    pub migration: Option<bool>,
}

/// The line for each check that ran, in order.
pub open spec fn check_lines(c: AccessChecks) -> Seq<Seq<char>> {
    (match c.drive {
        None => seq![],
        Some(Ok(())) => seq!["Drive access verified"@],
        Some(Err(e)) => seq!["Drive: "@ + e@],
    }) + (match c.sheet {
        None => seq![],
        Some(Ok(())) => seq!["Private Persons Sheet access verified"@],
        Some(Err(e)) => seq!["Persons Sheet: "@ + e@],
    }) + (match c.groups {
        None => seq![],
        Some(Ok(n)) => seq!["Groups access verified ("@ + decimal_of(n as nat) + " groups)"@],
        Some(Err(e)) => seq!["Groups: "@ + e@],
    }) + (match c.migration {
        None => seq![],
        Some(true) => seq!["Migration permission granted; destination access is checked before each operation"@],
        Some(false) => seq!["Migration permission was not granted; reconnect to approve write access"@],
    })
}

/// The lines joined with `. `.
pub open spec fn joined_lines(lines: Seq<Seq<char>>) -> Seq<char>
    decreases lines.len(),
{
    if lines.len() == 0 {
        seq![]
    } else if lines.len() == 1 {
        lines[0]
    } else {
        joined_lines(lines.drop_last()) + ". "@ + lines.last()
    }
}

/// The report shown after the access checks.
pub open spec fn check_report_text(c: AccessChecks) -> Seq<char> {
    "Google connection saved. "@ + joined_lines(check_lines(c))
        + ". Use Update metadata for enabled services with access. These checks do not import data."@
}

fn push_line(lines: &mut Vec<String>, line: String)
    ensures
        crate::text::strings_view(final(lines)@) == crate::text::strings_view(old(lines)@).push(line@),
{
    let ghost before = crate::text::strings_view(lines@);
    lines.push(line);
    assert(crate::text::strings_view(lines@) =~= before.push(line@));
}

fn prefixed(prefix: &str, text: &str) -> (r: String)
    ensures
        r@ == prefix@ + text@,
{
    let mut r = prefix.to_owned();
    r.append(text);
    r
}

pub fn check_report(c: &AccessChecks) -> (r: String)
    ensures
        r@ == check_report_text(*c),
{
    let mut lines: Vec<String> = Vec::new();
    match &c.drive {
        None => {},
        Some(Ok(())) => push_line(&mut lines, "Drive access verified".to_owned()),
        Some(Err(e)) => push_line(&mut lines, prefixed("Drive: ", e.as_str())),
    }
    match &c.sheet {
        None => {},
        Some(Ok(())) => push_line(&mut lines, "Private Persons Sheet access verified".to_owned()),
        Some(Err(e)) => push_line(&mut lines, prefixed("Persons Sheet: ", e.as_str())),
    }
    match &c.groups {
        None => {},
        Some(Ok(n)) => {
            let mut m = "Groups access verified (".to_owned();
            let d = decimal(*n);
            m.append(d.as_str());
            m.append(" groups)");
            push_line(&mut lines, m);
        },
        Some(Err(e)) => push_line(&mut lines, prefixed("Groups: ", e.as_str())),
    }
    match c.migration {
        None => {},
        Some(true) => push_line(
            &mut lines,
            "Migration permission granted; destination access is checked before each operation".to_owned(),
        ),
        Some(false) => push_line(&mut lines, "Migration permission was not granted; reconnect to approve write access".to_owned()),
    }
    assert(crate::text::strings_view(lines@) =~= check_lines(*c));
    let ghost lv = crate::text::strings_view(lines@);
    let mut joined = String::new();
    let mut k: usize = 0;
    while k < lines.len()
        invariant
            k <= lines@.len(),
            lv == crate::text::strings_view(lines@),
            joined@ == joined_lines(lv.take(k as int)),
        decreases lines.len() - k,
    {
        proof {
            assert(lv.take(k + 1).drop_last() =~= lv.take(k as int));
            assert(lv.take(k + 1).last() == lines@[k as int]@);
        }
        if k > 0 {
            joined.append(". ");
        }
        joined.append(lines[k].as_str());
        proof {
            if k == 0 {
                assert(joined@ =~= lv.take(1)[0]);
            }
        }
        k = k + 1;
    }
    assert(lv.take(lv.len() as int) =~= lv);
    let mut r = "Google connection saved. ".to_owned();
    r.append(joined.as_str());
    r.append(". Use Update metadata for enabled services with access. These checks do not import data.");
    r
}

} // verus!

verus! {

pub open spec fn opt_string_view(o: Option<String>) -> Option<Seq<char>> {
    match o {
        Some(s) => Some(s@),
        None => None,
    }
}

/// The project profile offered for download, built from an allow-list: the Google
/// app's identity and secret with Google's fixed endpoints, and the connection setup
/// without migration access. Nothing else of an uploaded client file is repeated.
pub fn project_profile(
    config: &crate::google::client::GoogleClientConfig,
    setup: &Setup,
) -> (r: (crate::google::client::InstalledCredentials, Setup))
    ensures
        r.0.client_id@ == config.client_id@ && r.0.client_secret@ == config.client_secret@,
        opt_string_view(r.0.project_id) == opt_string_view(config.project_id),
        r.0.auth_uri@ == "https://accounts.google.com/o/oauth2/auth"@,
        r.0.token_uri@ == "https://oauth2.googleapis.com/token"@,
        r.0.redirect_uris@.len() == 1 && r.0.redirect_uris@[0]@ == "http://localhost"@,
        r.1.groups_deployment@ == setup.groups_deployment@ && r.1.directory_admin == setup.directory_admin,
        !r.1.migration_access,
{
    let project_id = match &config.project_id {
        Some(p) => Some(p.clone()),
        None => None,
    };
    let mut redirect_uris: Vec<String> = Vec::new();
    redirect_uris.push("http://localhost".to_owned());
    (
        crate::google::client::InstalledCredentials {
            client_id: config.client_id.clone(),
            client_secret: config.client_secret.clone(),
            project_id,
            auth_uri: "https://accounts.google.com/o/oauth2/auth".to_owned(),
            token_uri: "https://oauth2.googleapis.com/token".to_owned(),
            redirect_uris,
        },
        Setup {
            groups_deployment: setup.groups_deployment.clone(),
            directory_admin: setup.directory_admin,
            migration_access: false,
        },
    )
}

} // verus!
