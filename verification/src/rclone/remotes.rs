//! The managed Google Drive remotes of Rclone: names, settings checks and messages.
use vstd::prelude::*;
use crate::text::{chars_of, split_chars, split_on, str_contains, str_eq, string_from_chars, trim, trim_chars, trim_str, has_infix};
use crate::local_files::{ascii_lowercase, to_ascii_lowercase};

verus! {

/// The two managed Google Drive remotes.
#[derive(Debug, Clone, Copy, PartialEq, Eq)]
pub enum RemoteKind {
    MyDriveRw,
    MyDriveRo,
}

pub open spec fn remote_name(kind: RemoteKind) -> Seq<char> {
    match kind {
        RemoteKind::MyDriveRw => "my-drive-rw"@,
        RemoteKind::MyDriveRo => "my-drive-ro"@,
    }
}

pub open spec fn remote_label(kind: RemoteKind) -> Seq<char> {
    match kind {
        RemoteKind::MyDriveRw => "My Drive RW"@,
        RemoteKind::MyDriveRo => "My Drive RO"@,
    }
}

/// The Google Drive scope each remote is authorized for.
pub open spec fn remote_scope(kind: RemoteKind) -> Seq<char> {
    match kind {
        RemoteKind::MyDriveRw => "drive"@,
        RemoteKind::MyDriveRo => "drive.readonly"@,
    }
}

impl RemoteKind {
    /// The remote's name in the Rclone configuration.
    pub fn name(self) -> (name: &'static str)
        ensures
            name@ == remote_name(self),
    {
        match self {
            RemoteKind::MyDriveRw => "my-drive-rw",
            RemoteKind::MyDriveRo => "my-drive-ro",
        }
    }

    /// The remote's name as shown.
    pub fn label(self) -> (label: &'static str)
        ensures
            label@ == remote_label(self),
    {
        match self {
            RemoteKind::MyDriveRw => "My Drive RW",
            RemoteKind::MyDriveRo => "My Drive RO",
        }
    }

    /// The Google Drive scope of the remote.
    pub fn scope(self) -> (scope: &'static str)
        ensures
            scope@ == remote_scope(self),
    {
        match self {
            RemoteKind::MyDriveRw => "drive",
            RemoteKind::MyDriveRo => "drive.readonly",
        }
    }
}

/// What the WebUI shows of a managed remote.
#[derive(Debug, Clone)]
pub enum RemoteState {
    Waiting,
    NotConfigured,
    Configuring,
    Ready,
    Conflict(String),
    Error(String),
}

/// A configured remote: its name and storage backend.
#[derive(Debug, Clone, PartialEq, Eq)]
pub struct ConfiguredRemote {
    pub name: String,
    pub backend: String,
}

} // verus!

verus! {

/// The lines of a text as `str::lines` yields them: split at `\n`, a `\r` before a
/// `\n` dropped, and no empty line after a final `\n`.
pub open spec fn text_lines(s: Seq<char>) -> Seq<Seq<char>> {
    let pieces = split_on(s, '\n');
    let n = pieces.len();
    let lines = Seq::new(
        n as nat,
        |k: int|
            if k < n - 1 && pieces[k].len() > 0 && pieces[k].last() == '\r' {
                pieces[k].drop_last()
            } else {
                pieces[k]
            },
    );
    if lines.len() > 0 && lines.last().len() == 0 {
        lines.drop_last()
    } else {
        lines
    }
}

/// The position of the last `:` in a line.
pub open spec fn last_colon(line: Seq<char>) -> Option<int>
    decreases line.len(),
{
    if line.len() == 0 {
        None
    } else if line.last() == ':' {
        Some(line.len() - 1)
    } else {
        last_colon(line.drop_last())
    }
}

pub struct ConfiguredRemoteView {
    pub name: Seq<char>,
    pub backend: Seq<char>,
}

/// The remotes of an `rclone listremotes --long` listing: `name: backend` per
/// non-blank line, split at the last `:`; a line without `:` is refused.
pub open spec fn listing_of(lines: Seq<Seq<char>>) -> Result<Seq<ConfiguredRemoteView>, Seq<char>>
    decreases lines.len(),
{
    if lines.len() == 0 {
        Ok(seq![])
    } else {
        match listing_of(lines.drop_last()) {
            Err(e) => Err(e),
            Ok(prev) => {
                let line = lines.last();
                if trim(line).len() == 0 {
                    Ok(prev)
                } else {
                    match last_colon(line) {
                        None => Err("Invalid Rclone remote listing row: "@ + line),
                        Some(c) => Ok(
                            prev.push(
                                ConfiguredRemoteView {
                                    name: trim(line.take(c)),
                                    backend: trim(line.skip(c + 1)),
                                },
                            ),
                        ),
                    }
                }
            },
        }
    }
}

fn last_colon_of(line: &Vec<char>) -> (r: Option<usize>)
    ensures
        match r {
            Some(c) => last_colon(line@) == Some(c as int) && c < line@.len(),
            None => last_colon(line@) is None,
        },
{
    let mut j: usize = line.len();
    assert(line@.take(j as int) == line@);
    while j > 0
        invariant
            j <= line@.len(),
            last_colon(line@) == last_colon(line@.take(j as int)),
        decreases j,
    {
        assert(line@.take(j as int).last() == line@[j - 1]);
        assert(line@.take(j as int).drop_last() == line@.take(j - 1));
        if line[j - 1] == ':' {
            return Some(j - 1);
        }
        j = j - 1;
    }
    None
}

/// The lines of a text, as `text_lines` describes.
pub fn lines_of(text: &str) -> (r: Vec<Vec<char>>)
    ensures
        r.deep_view() == text_lines(text@),
{
    let chars = chars_of(text);
    let pieces = split_chars(&chars, '\n');
    let ghost pv = split_on(text@, '\n');
    let n = pieces.len();
    proof {
        crate::text::lemma_split_on_nonempty(text@, '\n');
    }
    let ghost lines = Seq::new(
        n as nat,
        |k: int|
            if k < n - 1 && pv[k].len() > 0 && pv[k].last() == '\r' {
                pv[k].drop_last()
            } else {
                pv[k]
            },
    );
    let mut r: Vec<Vec<char>> = Vec::new();
    let mut k: usize = 0;
    while k < n
        invariant
            k <= n,
            n == pieces@.len(),
            pieces.deep_view() == pv,
            pv.len() == n,
            lines.len() == n,
            lines == Seq::new(
                n as nat,
                |k: int|
                    if k < n - 1 && pv[k].len() > 0 && pv[k].last() == '\r' {
                        pv[k].drop_last()
                    } else {
                        pv[k]
                    },
            ),
            r@.len() == k,
            forall|m: int| 0 <= m < k ==> (#[trigger] r@[m])@ == lines[m],
        decreases n - k,
    {
        assert(pieces@[k as int]@ == pv[k as int]);
        let p = &pieces[k];
        let line = if k + 1 < n && p.len() > 0 && p[p.len() - 1] == '\r' {
            crate::text::slice_chars(p.as_slice(), 0, p.len() - 1)
        } else {
            crate::text::slice_chars(p.as_slice(), 0, p.len())
        };
        assert(line@ == lines[k as int]);
        r.push(line);
        k = k + 1;
    }
    if r.len() > 0 && r[r.len() - 1].len() == 0 {
        r.pop();
    }
    assert forall|m: int| 0 <= m < r@.len() implies r.deep_view()[m] == text_lines(text@)[m] by {
        assert(r@[m].deep_view() =~= r@[m]@);
    }
    assert(r.deep_view() =~= text_lines(text@));
    r
}

/// The configured remotes, read from the output of `rclone listremotes --long`.
pub fn list_configured(listing: &str) -> (r: Result<Vec<ConfiguredRemote>, String>)
    ensures
        match listing_of(text_lines(listing@)) {
            Ok(rs) => r is Ok && r->Ok_0@.len() == rs.len() && forall|k: int|
                0 <= k < rs.len() ==> (#[trigger] r->Ok_0@[k]).name@ == rs[k].name && r->Ok_0@[k].backend@
                    == rs[k].backend,
            Err(m) => r is Err && r->Err_0@ == m,
        },
{
    let lines = lines_of(listing);
    let ghost lv = text_lines(listing@);
    let mut remotes: Vec<ConfiguredRemote> = Vec::new();
    let mut i: usize = 0;
    while i < lines.len()
        invariant
            i <= lines@.len(),
            lines.deep_view() == lv,
            lv == text_lines(listing@),
            listing_of(lv.take(i as int)) matches Ok(rs) && remotes@.len() == rs.len() && forall|k: int|
                0 <= k < rs.len() ==> (#[trigger] remotes@[k]).name@ == rs[k].name && remotes@[k].backend@
                    == rs[k].backend,
        decreases lines.len() - i,
    {
        let ghost t = lv.take(i + 1);
        assert(t.drop_last() == lv.take(i as int));
        assert(lines@[i as int]@ == lines.deep_view()[i as int]);
        assert(t.last() == lines@[i as int]@);
        let line = &lines[i];
        let trimmed = trim_chars(line.as_slice());
        if trimmed.len() > 0 {
            match last_colon_of(line) {
                None => {
                    let mut m = "Invalid Rclone remote listing row: ".to_owned();
                    let text = string_from_chars(line.as_slice());
                    m.append(text.as_str());
                    proof {
                        assert(listing_of(t) == Err::<Seq<ConfiguredRemoteView>, Seq<char>>(
                            "Invalid Rclone remote listing row: "@ + line@,
                        ));
                        lemma_listing_stops(lv, i as int, lv.len() as int);
                        assert(lv.take(lv.len() as int) == lv);
                    }
                    return Err(m);
                },
                Some(c) => {
                    let len = line.len();
                    let name_part = crate::text::slice_chars(line.as_slice(), 0, c);
                    let backend_part = crate::text::slice_chars(line.as_slice(), c + 1, len);
                    let name = string_from_chars(trim_chars(name_part.as_slice()).as_slice());
                    let backend = string_from_chars(trim_chars(backend_part.as_slice()).as_slice());
                    assert(name_part@ == line@.take(c as int));
                    assert(backend_part@ == line@.skip(c + 1));
                    remotes.push(ConfiguredRemote { name, backend });
                },
            }
        }
        i = i + 1;
    }
    assert(lv.take(lines@.len() as int) == lv);
    Ok(remotes)
}

proof fn lemma_listing_stops(lines: Seq<Seq<char>>, i: int, n: int)
    requires
        0 <= i < n <= lines.len(),
        listing_of(lines.take(i + 1)) is Err,
    ensures
        listing_of(lines.take(n)) == listing_of(lines.take(i + 1)),
    decreases n - i,
{
    if n > i + 1 {
        lemma_listing_stops(lines, i, n - 1);
        assert(lines.take(n).drop_last() == lines.take(n - 1));
    }
}

} // verus!

verus! {

/// What the Rclone configuration holds for a remote: the text values of the settings
/// that matter (absent or not text: `None`).
#[derive(Debug, Clone)]
pub struct RemoteSettings {
    pub remote_type: Option<String>,
    pub scope: Option<String>,
    pub client_id: Option<String>,
    pub token: Option<String>,
}

/// The state of a managed remote in the configuration.
#[derive(Debug, Clone, Copy, PartialEq, Eq, Structural)]
pub enum DetectedRemote {
    Missing,
    NeedsAuthorization,
    Ready,
}

pub open spec fn opt_text(o: Option<String>) -> Seq<char> {
    match o {
        Some(s) => s@,
        None => Seq::<char>::empty(),
    }
}

/// Why a setting that differs from what BOREAL expects blocks the remote.
pub open spec fn conflict_reason(key: Seq<char>) -> Seq<char> {
    if key == "type"@ {
        "uses a different storage provider. Rename that remote in the Rclone remote manager, then add the default Google remote again"@
    } else if key == "scope"@ {
        "has different Google access permissions. Use Repair / reconnect to apply Boreal's expected permissions"@
    } else if key == "client_id"@ {
        "belongs to a different Google app setup. Use Repair / reconnect to authorize the currently configured Google app"@
    } else {
        "needs to be reconfigured"@
    }
}

pub open spec fn conflict_message(kind: RemoteKind, key: Seq<char>) -> Seq<char> {
    "Remote '"@ + remote_name(kind) + "' "@ + conflict_reason(key) + "."@
}

/// Checks one setting of a remote; the message names the remote and the way to
/// repair it, never the value found.
pub fn check_value(actual: &Option<String>, key: &str, expected: &str, kind: RemoteKind) -> (r: Result<
    (),
    String,
>)
    ensures
        r is Ok <==> opt_text(*actual) == expected@,
        r matches Err(m) ==> m@ == conflict_message(kind, key@),
{
    let same = match actual {
        Some(a) => str_eq(a.as_str(), expected),
        None => {
            proof {
                reveal_strlit("");
                assert(""@ =~= Seq::<char>::empty());
            }
            str_eq("", expected)
        },
    };
    if same {
        return Ok(());
    }
    let reason = if str_eq(key, "type") {
        "uses a different storage provider. Rename that remote in the Rclone remote manager, then add the default Google remote again"
    } else if str_eq(key, "scope") {
        "has different Google access permissions. Use Repair / reconnect to apply Boreal's expected permissions"
    } else if str_eq(key, "client_id") {
        "belongs to a different Google app setup. Use Repair / reconnect to authorize the currently configured Google app"
    } else {
        "needs to be reconfigured"
    };
    let mut m = "Remote '".to_owned();
    m.append(kind.name());
    m.append("' ");
    m.append(reason);
    m.append(".");
    Err(m)
}

/// What a configured remote needs: refused when its provider, scope or Google app
/// differ from BOREAL's (checked in that order); ready once it holds a token.
pub open spec fn classification(s: RemoteSettings, client_id: Seq<char>, kind: RemoteKind) -> Result<
    DetectedRemote,
    Seq<char>,
> {
    if opt_text(s.remote_type) != "drive"@ {
        Err(conflict_message(kind, "type"@))
    } else if opt_text(s.scope) != remote_scope(kind) {
        Err(conflict_message(kind, "scope"@))
    } else if opt_text(s.client_id) != client_id {
        Err(conflict_message(kind, "client_id"@))
    } else if s.token matches Some(t) && trim(t@).len() > 0 {
        Ok(DetectedRemote::Ready)
    } else {
        Ok(DetectedRemote::NeedsAuthorization)
    }
}

pub fn classify_remote(remote: &RemoteSettings, client_id: &str, kind: RemoteKind) -> (r: Result<
    DetectedRemote,
    String,
>)
    ensures
        match classification(*remote, client_id@, kind) {
            Ok(d) => r == Ok::<DetectedRemote, String>(d),
            Err(m) => r matches Err(e) && e@ == m,
        },
{
    check_value(&remote.remote_type, "type", "drive", kind)?;
    check_value(&remote.scope, "scope", kind.scope(), kind)?;
    check_value(&remote.client_id, "client_id", client_id, kind)?;
    match &remote.token {
        Some(t) => {
            if !trim_str(t.as_str()).as_str().is_empty() {
                Ok(DetectedRemote::Ready)
            } else {
                Ok(DetectedRemote::NeedsAuthorization)
            }
        },
        None => Ok(DetectedRemote::NeedsAuthorization),
    }
}

/// The state shown for a remote after inspecting the configuration.
pub fn detect(inspected: Result<DetectedRemote, String>) -> (r: RemoteState)
    ensures
        match inspected {
            Ok(DetectedRemote::Ready) => r matches RemoteState::Ready,
            Ok(_) => r matches RemoteState::NotConfigured,
            Err(e) => r matches RemoteState::Conflict(m) && m == e,
        },
{
    match inspected {
        Ok(DetectedRemote::Ready) => RemoteState::Ready,
        Ok(_) => RemoteState::NotConfigured,
        Err(e) => RemoteState::Conflict(e),
    }
}

} // verus!

verus! {

/// The fixed explanation for a failed sign-in, chosen from known diagnostics in the
/// (lower-cased) output of Rclone.
pub open spec fn failure_explanation(d: Seq<char>) -> Seq<char> {
    if has_infix(d, "failed to read line"@) || has_infix(d, "couldn't read answer"@) {
        "Rclone requested terminal input instead of browser sign-in. Restart Boreal with the latest build, then reconnect."@
    } else if has_infix(d, "address already in use"@) || has_infix(
        d,
        "only one usage of each socket address"@,
    ) {
        "Google sign-in could not start because its local callback port is already in use. Finish or close any other Rclone sign-in attempt, then reconnect."@
    } else if has_infix(d, "invalid_client"@) || has_infix(d, "unauthorized_client"@) {
        "Google rejected the app credentials. Open Settings → Google setup guide, upload the correct Desktop app credentials, then reconnect."@
    } else if has_infix(d, "access_denied"@) || has_infix(d, "access blocked"@) {
        "Google denied authorization. Check that this account is allowed to use the Google app and grant the requested access when reconnecting."@
    } else if has_infix(d, "connection refused"@) || has_infix(d, "no such host"@) || has_infix(
        d,
        "timeout"@,
    ) || has_infix(d, "timed out"@) {
        "Google sign-in could not connect or timed out. Check your network connection, then reconnect."@
    } else {
        "Google sign-in did not finish. Retry and complete sign-in in the Google tab. If it fails again, check the Google app setup in Settings."@
    }
}

/// The message for a failed sign-in: a fixed explanation and the exit status, never
/// the output itself (it can hold tokens, secrets or authorization addresses).
pub open spec fn failure_message(stdout: Seq<char>, stderr: Seq<char>, code: Option<i32>) -> Seq<char> {
    let explanation = failure_explanation(ascii_lowercase(stdout + "\n"@ + stderr));
    match code {
        Some(c) => explanation + " (Rclone exit code "@ + crate::text::signed_decimal_of(c as int) + ".)"@,
        None => explanation + " (Rclone was interrupted.)"@,
    }
}

/// The message for a failed Rclone sign-in, from its output (read as text) and exit
/// code (`None` when it was interrupted).
pub fn authorization_failure(stdout: &str, stderr: &str, code: Option<i32>) -> (r: String)
    ensures
        r@ == failure_message(stdout@, stderr@, code),
{
    let mut both = stdout.to_owned();
    both.append("\n");
    both.append(stderr);
    let d = to_ascii_lowercase(both.as_str());
    let ds = d.as_str();
    let explanation = if str_contains(ds, "failed to read line") || str_contains(ds, "couldn't read answer") {
        "Rclone requested terminal input instead of browser sign-in. Restart Boreal with the latest build, then reconnect."
    } else if str_contains(ds, "address already in use") || str_contains(
        ds,
        "only one usage of each socket address",
    ) {
        "Google sign-in could not start because its local callback port is already in use. Finish or close any other Rclone sign-in attempt, then reconnect."
    } else if str_contains(ds, "invalid_client") || str_contains(ds, "unauthorized_client") {
        "Google rejected the app credentials. Open Settings → Google setup guide, upload the correct Desktop app credentials, then reconnect."
    } else if str_contains(ds, "access_denied") || str_contains(ds, "access blocked") {
        "Google denied authorization. Check that this account is allowed to use the Google app and grant the requested access when reconnecting."
    } else if str_contains(ds, "connection refused") || str_contains(ds, "no such host") || str_contains(
        ds,
        "timeout",
    ) || str_contains(ds, "timed out") {
        "Google sign-in could not connect or timed out. Check your network connection, then reconnect."
    } else {
        "Google sign-in did not finish. Retry and complete sign-in in the Google tab. If it fails again, check the Google app setup in Settings."
    };
    let mut m = explanation.to_owned();
    match code {
        Some(c) => {
            m.append(" (Rclone exit code ");
            let n = crate::text::signed_decimal(c);
            m.append(n.as_str());
            m.append(".)");
        },
        None => {
            m.append(" (Rclone was interrupted.)");
        },
    }
    m
}

} // verus!

verus! {

/// Where setting up a managed remote stands.
#[derive(Debug, Clone, Copy, PartialEq, Eq, Structural)]
pub enum SetupStage {
    /// Reading the remote to see what it needs.
    Inspecting,
    /// Waiting for Rclone to create or authorize the remote.
    Configuring,
    /// Reading the remote again after Rclone finished.
    Confirming,
    /// Repair: reading the remote before its settings are replaced.
    Reading,
    /// Repair: waiting for Rclone to replace the remote's settings.
    Updating,
    /// Repair: waiting for Rclone to authorize the remote again.
    Reconnecting,
    /// Repair: reading the remote again after authorization.
    Verifying,
    Finished,
}

/// Setting up (or repairing) one of BOREAL's Google remotes.
#[derive(Debug, Clone)]
pub struct RemoteSetup {
    pub stage: SetupStage,
    pub kind: RemoteKind,
    pub client_id: String,
    pub client_secret: String,
    pub config_path: String,
}

/// What happened since the last action.
#[derive(Debug)]
pub enum SetupEvent {
    /// The remote as the saved configuration holds it (`None`: not configured), or why
    /// the configuration could not be read.
    Read(Result<Option<RemoteSettings>, String>),
    /// Rclone finished: whether it succeeded, its output (read as text) and exit code
    /// (`None` when interrupted).
    Finished { success: bool, stdout: String, stderr: String, code: Option<i32> },
}

/// What the setup asks for next.
#[derive(Debug)]
pub enum SetupAction {
    /// Read the remote from the saved configuration.
    Read,
    /// Run Rclone with these arguments, then restrict the configuration file to its
    /// owner: always, or only when the file exists.
    Run { args: Vec<String>, protect_always: bool },
    /// The outcome.
    Finish(Result<(), String>),
}

pub enum SetupActionView {
    Read,
    Run(Seq<Seq<char>>, bool),
    Finish(Result<(), Seq<char>>),
}

impl View for SetupAction {
    type V = SetupActionView;

    open spec fn view(&self) -> SetupActionView {
        match self {
            SetupAction::Read => SetupActionView::Read,
            SetupAction::Run { args, protect_always } => SetupActionView::Run(
                crate::text::strings_view(args@),
                *protect_always,
            ),
            SetupAction::Finish(Ok(())) => SetupActionView::Finish(Ok(())),
            SetupAction::Finish(Err(m)) => SetupActionView::Finish(Err(m@)),
        }
    }
}

/// `config create`: a new Drive remote with BOREAL's Google app and scope.
pub open spec fn create_arguments(kind: RemoteKind, client_id: Seq<char>, client_secret: Seq<char>, config_path: Seq<
    char,
>) -> Seq<Seq<char>> {
    seq![
        "config"@,
        "create"@,
        remote_name(kind),
        "drive"@,
        "client_id"@,
        client_id,
        "client_secret"@,
        client_secret,
        "scope"@,
        remote_scope(kind),
        "--auto-confirm"@,
        "--obscure"@,
        "--config"@,
        config_path,
    ]
}

/// `config reconnect`: browser sign-in for the remote.
pub open spec fn reconnect_arguments(kind: RemoteKind, config_path: Seq<char>) -> Seq<Seq<char>> {
    seq!["config"@, "reconnect"@, remote_name(kind) + ":"@, "--auto-confirm"@, "--config"@, config_path]
}

/// `config update`: BOREAL's Google app and scope, with the old token dropped.
pub open spec fn update_arguments(kind: RemoteKind, client_id: Seq<char>, client_secret: Seq<char>, config_path: Seq<
    char,
>) -> Seq<Seq<char>> {
    seq![
        "config"@,
        "update"@,
        remote_name(kind),
        "client_id"@,
        client_id,
        "client_secret"@,
        client_secret,
        "scope"@,
        remote_scope(kind),
        "token"@,
        ""@,
        "config_refresh_token"@,
        "false"@,
        "--obscure"@,
        "--non-interactive"@,
        "--config"@,
        config_path,
    ]
}

/// What reading the remote says it needs.
pub open spec fn inspected(read: Result<Option<RemoteSettings>, String>, client_id: Seq<char>, kind: RemoteKind) -> Result<
    DetectedRemote,
    Seq<char>,
> {
    match read {
        Err(e) => Err(e@),
        Ok(None) => Ok(DetectedRemote::Missing),
        Ok(Some(s)) => classification(s, client_id, kind),
    }
}

/// Whether the setup waits for this event at this stage.
pub open spec fn expects(stage: SetupStage, event: SetupEvent) -> bool {
    match stage {
        SetupStage::Inspecting | SetupStage::Confirming | SetupStage::Reading | SetupStage::Verifying => event is Read,
        SetupStage::Configuring | SetupStage::Updating | SetupStage::Reconnecting => event is Finished,
        SetupStage::Finished => false,
    }
}

/// The setup's next stage and action after an event it waits for.
pub open spec fn setup_next(s: RemoteSetup, event: SetupEvent) -> (SetupStage, SetupActionView) {
    let (cid, secret, cfg) = (s.client_id@, s.client_secret@, s.config_path@);
    match event {
        SetupEvent::Read(read) => match s.stage {
            SetupStage::Inspecting => match inspected(read, cid, s.kind) {
                Err(m) => (SetupStage::Finished, SetupActionView::Finish(Err(m))),
                Ok(DetectedRemote::Ready) => (SetupStage::Finished, SetupActionView::Finish(Ok(()))),
                Ok(DetectedRemote::Missing) => (
                    SetupStage::Configuring,
                    SetupActionView::Run(create_arguments(s.kind, cid, secret, cfg), false),
                ),
                Ok(DetectedRemote::NeedsAuthorization) => (
                    SetupStage::Configuring,
                    SetupActionView::Run(reconnect_arguments(s.kind, cfg), false),
                ),
            },
            SetupStage::Confirming => match inspected(read, cid, s.kind) {
                Err(m) => (SetupStage::Finished, SetupActionView::Finish(Err(m))),
                Ok(DetectedRemote::Ready) => (SetupStage::Finished, SetupActionView::Finish(Ok(()))),
                Ok(_) => (
                    SetupStage::Finished,
                    SetupActionView::Finish(
                        Err("Rclone finished without a usable "@ + remote_label(s.kind) + " remote"@),
                    ),
                ),
            },
            SetupStage::Reading => match read {
                Err(e) => (SetupStage::Finished, SetupActionView::Finish(Err(e@))),
                Ok(None) => (SetupStage::Inspecting, SetupActionView::Read),
                Ok(Some(r)) => if opt_text(r.remote_type) != "drive"@ {
                    (SetupStage::Finished, SetupActionView::Finish(Err(conflict_message(s.kind, "type"@))))
                } else {
                    (SetupStage::Updating, SetupActionView::Run(update_arguments(s.kind, cid, secret, cfg), true))
                },
            },
            _ => match inspected(read, cid, s.kind) {
                Err(m) => (SetupStage::Finished, SetupActionView::Finish(Err(m))),
                Ok(DetectedRemote::Ready) => (SetupStage::Finished, SetupActionView::Finish(Ok(()))),
                Ok(_) => (
                    SetupStage::Finished,
                    SetupActionView::Finish(
                        Err(
                            "Google did not return usable authorization. Reconnect and grant the requested access."@,
                        ),
                    ),
                ),
            },
        },
        SetupEvent::Finished { success, stdout, stderr, code } => match s.stage {
            SetupStage::Configuring => if success {
                (SetupStage::Confirming, SetupActionView::Read)
            } else {
                (SetupStage::Finished, SetupActionView::Finish(Err(failure_message(stdout@, stderr@, code))))
            },
            SetupStage::Updating => if success {
                (SetupStage::Reconnecting, SetupActionView::Run(reconnect_arguments(s.kind, cfg), true))
            } else {
                (
                    SetupStage::Finished,
                    SetupActionView::Finish(
                        Err(
                            "Could not update this remote. Check that Boreal can write its remote settings, then retry."@,
                        ),
                    ),
                )
            },
            _ => if success {
                (SetupStage::Verifying, SetupActionView::Read)
            } else {
                (SetupStage::Finished, SetupActionView::Finish(Err(failure_message(stdout@, stderr@, code))))
            },
        },
    }
}

fn read_outcome(read: &Result<Option<RemoteSettings>, String>, client_id: &str, kind: RemoteKind) -> (r: Result<
    DetectedRemote,
    String,
>)
    ensures
        match inspected(*read, client_id@, kind) {
            Ok(d) => r == Ok::<DetectedRemote, String>(d),
            Err(m) => r matches Err(e) && e@ == m,
        },
{
    match read {
        Err(e) => Err(e.clone()),
        Ok(None) => Ok(DetectedRemote::Missing),
        Ok(Some(s)) => classify_remote(s, client_id, kind),
    }
}

fn create_args_of(kind: RemoteKind, client_id: &str, client_secret: &str, config_path: &str) -> (r: Vec<String>)
    ensures
        crate::text::strings_view(r@) == create_arguments(kind, client_id@, client_secret@, config_path@),
{
    let mut a: Vec<String> = Vec::new();
    a.push("config".to_owned());
    a.push("create".to_owned());
    a.push(kind.name().to_owned());
    a.push("drive".to_owned());
    a.push("client_id".to_owned());
    a.push(client_id.to_owned());
    a.push("client_secret".to_owned());
    a.push(client_secret.to_owned());
    a.push("scope".to_owned());
    a.push(kind.scope().to_owned());
    a.push("--auto-confirm".to_owned());
    a.push("--obscure".to_owned());
    a.push("--config".to_owned());
    a.push(config_path.to_owned());
    assert(crate::text::strings_view(a@) =~= create_arguments(kind, client_id@, client_secret@, config_path@));
    a
}

fn reconnect_args_of(kind: RemoteKind, config_path: &str) -> (r: Vec<String>)
    ensures
        crate::text::strings_view(r@) == reconnect_arguments(kind, config_path@),
{
    let mut remote = kind.name().to_owned();
    remote.append(":");
    let mut a: Vec<String> = Vec::new();
    a.push("config".to_owned());
    a.push("reconnect".to_owned());
    a.push(remote);
    a.push("--auto-confirm".to_owned());
    a.push("--config".to_owned());
    a.push(config_path.to_owned());
    assert(crate::text::strings_view(a@) =~= reconnect_arguments(kind, config_path@));
    a
}

fn update_args_of(kind: RemoteKind, client_id: &str, client_secret: &str, config_path: &str) -> (r: Vec<String>)
    ensures
        crate::text::strings_view(r@) == update_arguments(kind, client_id@, client_secret@, config_path@),
{
    let mut a: Vec<String> = Vec::new();
    a.push("config".to_owned());
    a.push("update".to_owned());
    a.push(kind.name().to_owned());
    a.push("client_id".to_owned());
    a.push(client_id.to_owned());
    a.push("client_secret".to_owned());
    a.push(client_secret.to_owned());
    a.push("scope".to_owned());
    a.push(kind.scope().to_owned());
    a.push("token".to_owned());
    a.push("".to_owned());
    a.push("config_refresh_token".to_owned());
    a.push("false".to_owned());
    a.push("--obscure".to_owned());
    a.push("--non-interactive".to_owned());
    a.push("--config".to_owned());
    a.push(config_path.to_owned());
    assert(crate::text::strings_view(a@) =~= update_arguments(kind, client_id@, client_secret@, config_path@));
    a
}

/// Sets up one of BOREAL's Google remotes with the configured Google app (its id and
/// secret): a missing remote is created, one without a token is authorized, one whose
/// settings differ is refused. The setup starts by reading the remote.
pub fn configure(kind: RemoteKind, client_id: String, client_secret: String, config_path: String) -> (r: (
    RemoteSetup,
    SetupAction,
))
    ensures
        r.0.stage == SetupStage::Inspecting,
        r.0.kind == kind,
        r.0.client_id@ == client_id@,
        r.0.client_secret@ == client_secret@,
        r.0.config_path@ == config_path@,
        r.1@ == SetupActionView::Read,
{
    (RemoteSetup { stage: SetupStage::Inspecting, kind, client_id, client_secret, config_path }, SetupAction::Read)
}

/// Repairs one of BOREAL's Google remotes: its Google app and scope are replaced and it
/// is authorized again (a missing remote is set up as `configure` does). The repair
/// starts by reading the remote.
pub fn reconnect(kind: RemoteKind, client_id: String, client_secret: String, config_path: String) -> (r: (
    RemoteSetup,
    SetupAction,
))
    ensures
        r.0.stage == SetupStage::Reading,
        r.0.kind == kind,
        r.0.client_id@ == client_id@,
        r.0.client_secret@ == client_secret@,
        r.0.config_path@ == config_path@,
        r.1@ == SetupActionView::Read,
{
    (RemoteSetup { stage: SetupStage::Reading, kind, client_id, client_secret, config_path }, SetupAction::Read)
}

impl RemoteSetup {
    /// The next stage and action after the event the setup waits for.
    pub fn step(self, event: SetupEvent) -> (r: (RemoteSetup, SetupAction))
        requires
            expects(self.stage, event),
        ensures
            (r.0.stage, r.1@) == setup_next(self, event),
            r.0.kind == self.kind,
            r.0.client_id@ == self.client_id@,
            r.0.client_secret@ == self.client_secret@,
            r.0.config_path@ == self.config_path@,
    {
        let ghost old_self = self;
        let kind = self.kind;
        let (stage, action) = match &event {
            SetupEvent::Read(read) => match self.stage {
                SetupStage::Reading => match read {
                    Err(e) => (SetupStage::Finished, SetupAction::Finish(Err(e.clone()))),
                    Ok(None) => (SetupStage::Inspecting, SetupAction::Read),
                    Ok(Some(r)) => match check_value(&r.remote_type, "type", "drive", kind) {
                        Err(m) => (SetupStage::Finished, SetupAction::Finish(Err(m))),
                        Ok(()) => (
                            SetupStage::Updating,
                            SetupAction::Run {
                                args: update_args_of(
                                    kind,
                                    self.client_id.as_str(),
                                    self.client_secret.as_str(),
                                    self.config_path.as_str(),
                                ),
                                protect_always: true,
                            },
                        ),
                    },
                },
                stage => match read_outcome(read, self.client_id.as_str(), kind) {
                    Err(m) => (SetupStage::Finished, SetupAction::Finish(Err(m))),
                    Ok(DetectedRemote::Ready) => (SetupStage::Finished, SetupAction::Finish(Ok(()))),
                    Ok(d) => {
                        if stage == SetupStage::Inspecting {
                            let args = if d == DetectedRemote::Missing {
                                create_args_of(
                                    kind,
                                    self.client_id.as_str(),
                                    self.client_secret.as_str(),
                                    self.config_path.as_str(),
                                )
                            } else {
                                reconnect_args_of(kind, self.config_path.as_str())
                            };
                            (SetupStage::Configuring, SetupAction::Run { args, protect_always: false })
                        } else if stage == SetupStage::Confirming {
                            let mut m = "Rclone finished without a usable ".to_owned();
                            m.append(kind.label());
                            m.append(" remote");
                            (SetupStage::Finished, SetupAction::Finish(Err(m)))
                        } else {
                            (
                                SetupStage::Finished,
                                SetupAction::Finish(
                                    Err(
                                        "Google did not return usable authorization. Reconnect and grant the requested access.".to_owned(),
                                    ),
                                ),
                            )
                        }
                    },
                },
            },
            SetupEvent::Finished { success, stdout, stderr, code } => {
                if !*success {
                    if self.stage == SetupStage::Updating {
                        (
                            SetupStage::Finished,
                            SetupAction::Finish(
                                Err(
                                    "Could not update this remote. Check that Boreal can write its remote settings, then retry.".to_owned(),
                                ),
                            ),
                        )
                    } else {
                        (
                            SetupStage::Finished,
                            SetupAction::Finish(Err(authorization_failure(stdout.as_str(), stderr.as_str(), *code))),
                        )
                    }
                } else if self.stage == SetupStage::Configuring {
                    (SetupStage::Confirming, SetupAction::Read)
                } else if self.stage == SetupStage::Updating {
                    (
                        SetupStage::Reconnecting,
                        SetupAction::Run { args: reconnect_args_of(kind, self.config_path.as_str()), protect_always: true },
                    )
                } else {
                    (SetupStage::Verifying, SetupAction::Read)
                }
            },
        };
        (RemoteSetup { stage, ..self }, action)
    }
}

} // verus!
