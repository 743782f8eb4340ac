//! Copies from Google Drive (and Shared Drives) into a destination Drive folder:
//! remote addresses, copy commands and the checks made before a migration starts.
use vstd::prelude::*;
use crate::rclone::remotes::{RemoteKind, remote_name};
use crate::text::{starts_with, str_eq, strip_prefix_str};

verus! {

/// The scope prefix of Shared Drive sources (`shared-drive:<drive id>`).
pub const SHARED_DRIVE_SCOPE_PREFIX: &'static str = "shared-drive:";

/// A source selected for migration: its top-level name and where it is.
#[derive(Debug, Clone)]
pub struct MigrationSource {
    pub name: String,
    pub relative_path: String,
    pub is_directory: bool,
}

/// A Shared Drive identifier as BOREAL accepts it: ASCII letters, digits, `-` and `_`.
pub open spec fn drive_id_ok(id: Seq<char>) -> bool {
    id.len() > 0 && forall|i: int|
        0 <= i < id.len() ==> {
            let c = #[trigger] id[i];
            ('a' <= c && c <= 'z') || ('A' <= c && c <= 'Z') || ('0' <= c && c <= '9') || c == '-'
                || c == '_'
        }
}

/// `s` without its leading `/` characters.
pub open spec fn skip_slashes(s: Seq<char>) -> Seq<char>
    decreases s.len(),
{
    if s.len() > 0 && s[0] == '/' {
        skip_slashes(s.drop_first())
    } else {
        s
    }
}

/// The read-only remote address of a source: Shared Drive sources name their drive,
/// shared-with-me sources say so, My Drive sources need nothing more.
pub open spec fn source_address(kind: Seq<char>, scope: Seq<char>, path: Seq<char>) -> Option<Seq<char>> {
    let rest = skip_slashes(path);
    if kind == "shared-drive"@ {
        if starts_with(scope, SHARED_DRIVE_SCOPE_PREFIX@) && drive_id_ok(
            scope.skip(SHARED_DRIVE_SCOPE_PREFIX@.len() as int),
        ) {
            Some(
                remote_name(RemoteKind::MyDriveRo) + ",team_drive="@ + scope.skip(
                    SHARED_DRIVE_SCOPE_PREFIX@.len() as int,
                ) + ":"@ + rest,
            )
        } else {
            None
        }
    } else if kind == "shared-with-me"@ {
        Some(remote_name(RemoteKind::MyDriveRo) + ",shared_with_me=true"@ + ":"@ + rest)
    } else {
        Some(remote_name(RemoteKind::MyDriveRo) + ":"@ + rest)
    }
}

fn drive_id_ok_of(id: &str) -> (r: bool)
    ensures
        r == drive_id_ok(id@),
{
    let v = crate::text::chars_of(id);
    if v.len() == 0 {
        return false;
    }
    let mut i: usize = 0;
    while i < v.len()
        invariant
            i <= v@.len(),
            v@ == id@,
            forall|k: int|
                0 <= k < i ==> {
                    let c = #[trigger] v@[k];
                    ('a' <= c && c <= 'z') || ('A' <= c && c <= 'Z') || ('0' <= c && c <= '9') || c
                        == '-' || c == '_'
                },
        decreases v.len() - i,
    {
        let c = v[i];
        if !(('a' <= c && c <= 'z') || ('A' <= c && c <= 'Z') || ('0' <= c && c <= '9') || c == '-'
            || c == '_') {
            return false;
        }
        i = i + 1;
    }
    true
}

fn skip_slashes_of(s: &str) -> (r: String)
    ensures
        r@ == skip_slashes(s@),
{
    let v = crate::text::chars_of(s);
    let mut i: usize = 0;
    assert(v@.skip(0) == v@);
    while i < v.len() && v[i] == '/'
        invariant
            i <= v@.len(),
            skip_slashes(v@) == skip_slashes(v@.skip(i as int)),
        decreases v.len() - i,
    {
        assert(v@.skip(i as int)[0] == v@[i as int]);
        assert(v@.skip(i as int).drop_first() == v@.skip(i + 1));
        i = i + 1;
    }
    proof {
        if i < v@.len() {
            assert(v@.skip(i as int)[0] == v@[i as int]);
        }
    }
    let rest = crate::text::slice_chars(v.as_slice(), i, v.len());
    crate::text::string_from_chars(rest.as_slice())
}

/// The read-only remote address of a migration source.
pub fn source_remote(kind: &str, scope: &str, path: &str) -> (r: Result<String, String>)
    ensures
        match source_address(kind@, scope@, path@) {
            Some(a) => r matches Ok(s) && s@ == a,
            None => r matches Err(m) && m@ == "Invalid Shared Drive source"@,
        },
{
    let rest = skip_slashes_of(path);
    let mut r = RemoteKind::MyDriveRo.name().to_owned();
    if str_eq(kind, "shared-drive") {
        match strip_prefix_str(scope, SHARED_DRIVE_SCOPE_PREFIX) {
            Some(id) => {
                if !drive_id_ok_of(id.as_str()) {
                    return Err("Invalid Shared Drive source".to_owned());
                }
                r.append(",team_drive=");
                r.append(id.as_str());
            },
            None => {
                return Err("Invalid Shared Drive source".to_owned());
            },
        }
    } else if str_eq(kind, "shared-with-me") {
        r.append(",shared_with_me=true");
    }
    r.append(":");
    r.append(rest.as_str());
    Ok(r)
}

/// The writable remote address of a destination folder (in a Shared Drive when
/// `drive_id` is not empty).
pub open spec fn destination_address(drive_id: Seq<char>, folder_id: Seq<char>) -> Seq<char> {
    if drive_id.len() == 0 {
        remote_name(RemoteKind::MyDriveRw) + ",root_folder_id="@ + folder_id + ":"@
    } else {
        remote_name(RemoteKind::MyDriveRw) + ",team_drive="@ + drive_id + ",root_folder_id="@ + folder_id
            + ":"@
    }
}

pub fn destination_remote(drive_id: &str, folder_id: &str) -> (r: String)
    ensures
        r@ == destination_address(drive_id@, folder_id@),
{
    let mut r = RemoteKind::MyDriveRw.name().to_owned();
    if !drive_id.is_empty() {
        r.append(",team_drive=");
        r.append(drive_id);
    }
    r.append(",root_folder_id=");
    r.append(folder_id);
    r.append(":");
    r
}

/// The Rclone arguments that copy one source into the destination folder: `copy` for
/// folders (empty folders included), `copyto` for files, server-side across remotes,
/// with `--immutable` when nothing may be overwritten.
pub open spec fn copy_arguments(
    source: Seq<char>,
    name: Seq<char>,
    is_directory: bool,
    destination_root: Seq<char>,
    config_path: Seq<char>,
    immutable: bool,
) -> Seq<Seq<char>> {
    seq![
        if is_directory {
            "copy"@
        } else {
            "copyto"@
        },
        source,
        destination_root + name,
        "--drive-server-side-across-configs"@,
        "--config"@,
        config_path,
    ] + (if immutable {
        seq!["--immutable"@]
    } else {
        seq![]
    }) + (if is_directory {
        seq!["--create-empty-src-dirs"@]
    } else {
        seq![]
    })
}

/// The command that copies a migration source: its Rclone arguments, or why the
/// source cannot be addressed.
pub fn copy_source(
    source_kind: &str,
    source_scope: &str,
    source: &MigrationSource,
    destination_drive_id: &str,
    destination_folder_id: &str,
    immutable: bool,
    config_path: &str,
) -> (r: Result<Vec<String>, String>)
    ensures
        match source_address(source_kind@, source_scope@, source.relative_path@) {
            Some(a) => r matches Ok(args) && crate::text::strings_view(args@) == copy_arguments(
                a,
                source.name@,
                source.is_directory,
                destination_address(destination_drive_id@, destination_folder_id@),
                config_path@,
                immutable,
            ),
            None => r matches Err(m) && m@ == "Invalid Shared Drive source"@,
        },
{
    let from = source_remote(source_kind, source_scope, source.relative_path.as_str())?;
    let mut to = destination_remote(destination_drive_id, destination_folder_id);
    to.append(source.name.as_str());
    let mut args: Vec<String> = Vec::new();
    args.push(if source.is_directory {
        "copy".to_owned()
    } else {
        "copyto".to_owned()
    });
    args.push(from);
    args.push(to);
    args.push("--drive-server-side-across-configs".to_owned());
    args.push("--config".to_owned());
    args.push(config_path.to_owned());
    if immutable {
        args.push("--immutable".to_owned());
    }
    if source.is_directory {
        args.push("--create-empty-src-dirs".to_owned());
    }
    assert(crate::text::strings_view(args@) =~= copy_arguments(
        source_address(source_kind@, source_scope@, source.relative_path@)->0,
        source.name@,
        source.is_directory,
        destination_address(destination_drive_id@, destination_folder_id@),
        config_path@,
        immutable,
    ));
    Ok(args)
}

/// The message for a failed copy: the source's name and Rclone's diagnostics.
pub fn copy_failure(name: &str, stderr: &str) -> (r: String)
    ensures
        r@ == "Rclone could not copy '"@ + name@ + "': "@ + crate::text::trim(stderr@),
{
    let mut m = "Rclone could not copy '".to_owned();
    m.append(name);
    m.append("': ");
    let t = crate::text::trim_str(stderr);
    m.append(t.as_str());
    m
}

} // verus!

verus! {

/// The first problem with the top-level names of a migration: a name selected twice,
/// or (unless existing items may stay) a name the destination already holds.
pub open spec fn names_problem(names: Seq<Seq<char>>, existing: Seq<Seq<char>>, allow_existing: bool, n: int) -> Option<
    Seq<char>,
>
    decreases n,
{
    if n <= 0 {
        None
    } else {
        match names_problem(names, existing, allow_existing, n - 1) {
            Some(m) => Some(m),
            None => {
                let name = names[n - 1];
                if names.take(n - 1).contains(name) {
                    Some(
                        "Multiple selected items are named '"@ + name
                            + "'. Select unique top-level names before starting the migration."@,
                    )
                } else if !allow_existing && existing.contains(name) {
                    Some(
                        "The destination already contains an item named '"@ + name
                            + "'. BOREAL will not merge or overwrite it."@,
                    )
                } else {
                    None
                }
            },
        }
    }
}

proof fn lemma_names_problem_stops(names: Seq<Seq<char>>, existing: Seq<Seq<char>>, allow: bool, k: int, n: int)
    requires
        0 <= k < n,
        names_problem(names, existing, allow, k) is None,
        names_problem(names, existing, allow, k + 1) is Some,
    ensures
        names_problem(names, existing, allow, n) == names_problem(names, existing, allow, k + 1),
    decreases n - k,
{
    if n > k + 1 {
        lemma_names_problem_stops(names, existing, allow, k, n - 1);
    }
}

/// Checks the top-level names of the sources against each other and the destination.
pub fn check_names(names: &Vec<String>, existing: &Vec<String>, allow_existing: bool) -> (r: Result<(), String>)
    ensures
        match names_problem(
            crate::text::strings_view(names@),
            crate::text::strings_view(existing@),
            allow_existing,
            names@.len() as int,
        ) {
            Some(m) => r matches Err(e) && e@ == m,
            None => r is Ok,
        },
{
    let ghost nv = crate::text::strings_view(names@);
    let ghost ev = crate::text::strings_view(existing@);
    let mut earlier: Vec<String> = Vec::new();
    let mut k: usize = 0;
    while k < names.len()
        invariant
            k <= names@.len(),
            nv == crate::text::strings_view(names@),
            ev == crate::text::strings_view(existing@),
            crate::text::strings_view(earlier@) == nv.take(k as int),
            names_problem(nv, ev, allow_existing, k as int) is None,
        decreases names.len() - k,
    {
        let name = names[k].as_str();
        assert(nv[k as int] == names@[k as int]@);
        assert(nv.take(k + 1 - 1) == nv.take(k as int));
        if crate::text::listed(&earlier, name) {
            let mut m = "Multiple selected items are named '".to_owned();
            m.append(name);
            m.append("'. Select unique top-level names before starting the migration.");
            proof {
                lemma_names_problem_stops(nv, ev, allow_existing, k as int, nv.len() as int);
            }
            return Err(m);
        }
        if !allow_existing && crate::text::listed(existing, name) {
            let mut m = "The destination already contains an item named '".to_owned();
            m.append(name);
            m.append("'. BOREAL will not merge or overwrite it.");
            proof {
                lemma_names_problem_stops(nv, ev, allow_existing, k as int, nv.len() as int);
            }
            return Err(m);
        }
        let ghost before = crate::text::strings_view(earlier@);
        earlier.push(names[k].clone());
        assert(crate::text::strings_view(earlier@) =~= before.push(names@[k as int]@));
        assert(nv.take(k + 1) =~= nv.take(k as int).push(nv[k as int]));
        k = k + 1;
    }
    Ok(())
}

/// Where a migration preflight stands.
#[derive(Debug, Clone, Copy, PartialEq, Eq)]
pub enum PreflightStage {
    /// Waiting for the writable remote's authorization check (`backend drives`).
    Authorizing,
    /// Waiting for the destination folder's metadata, read through the writable remote.
    Resolving,
    /// Waiting for the listing of the destination folder.
    Listing,
    /// Done.
    Finished,
}

/// The checks made before a migration starts: the writable remote is authorized, the
/// destination folder is still in the expected drive and accepts new items, and no
/// selected top-level name clashes with another or (unless allowed) with the
/// destination's contents.
#[derive(Debug, Clone)]
pub struct Preflight {
    pub stage: PreflightStage,
    pub destination_drive_id: String,
    pub destination_folder_id: String,
    pub names: Vec<String>,
    pub allow_existing: bool,
    pub config_path: String,
}

/// What the preflight asks for next.
#[derive(Debug)]
pub enum PreflightAction {
    /// Run Rclone with these arguments and report how it finished.
    Run(Vec<String>),
    /// Read the metadata of this folder through the writable remote.
    ResolveFolder(String),
    /// The preflight's outcome.
    Finish(Result<(), String>),
}

/// What happened since the last action.
#[derive(Debug, Clone)]
pub enum PreflightEvent {
    /// Rclone finished; its standard error (read as text) and whether it succeeded.
    Finished { success: bool, stderr: String },
    /// The destination folder's drive and whether the account can add to it.
    Folder { drive_id: String, can_add_children: bool },
    /// The names in the destination folder (the listing as read).
    Listed(Vec<String>),
    /// The listing could not be read; the reader's explanation.
    Unreadable(String),
}

pub open spec fn drives_arguments(config_path: Seq<char>) -> Seq<Seq<char>> {
    seq!["backend"@, "drives"@, remote_name(RemoteKind::MyDriveRw) + ":"@, "--json"@, "--config"@, config_path]
}

pub open spec fn listing_arguments(drive_id: Seq<char>, folder_id: Seq<char>, config_path: Seq<char>) -> Seq<Seq<char>> {
    seq![
        "lsjson"@,
        destination_address(drive_id, folder_id),
        "--max-depth"@,
        "1"@,
        "--config"@,
        config_path,
    ]
}

impl Preflight {
    /// Starts a preflight: first the writable remote's authorization is checked.
    pub fn start(
        destination_drive_id: String,
        destination_folder_id: String,
        names: Vec<String>,
        allow_existing: bool,
        config_path: String,
    ) -> (r: (Preflight, PreflightAction))
        ensures
            r.0.stage == PreflightStage::Authorizing,
            r.0.destination_drive_id == destination_drive_id,
            r.0.destination_folder_id == destination_folder_id,
            r.0.names == names,
            r.0.allow_existing == allow_existing,
            r.0.config_path == config_path,
            (r.1 matches PreflightAction::Run(args) && crate::text::strings_view(args@) == drives_arguments(
                config_path@,
            )),
    {
        let mut args: Vec<String> = Vec::new();
        args.push("backend".to_owned());
        args.push("drives".to_owned());
        let mut remote = RemoteKind::MyDriveRw.name().to_owned();
        remote.append(":");
        args.push(remote);
        args.push("--json".to_owned());
        args.push("--config".to_owned());
        args.push(config_path.clone());
        assert(crate::text::strings_view(args@) =~= drives_arguments(config_path@));
        (
            Preflight {
                stage: PreflightStage::Authorizing,
                destination_drive_id,
                destination_folder_id,
                names,
                allow_existing,
                config_path,
            },
            PreflightAction::Run(args),
        )
    }

    /// Advances the preflight with what happened; an event the stage does not expect
    /// ends it with an error.
    pub fn step(self, event: PreflightEvent) -> (r: (Preflight, PreflightAction))
        ensures
            r.0.destination_drive_id == self.destination_drive_id,
            r.0.destination_folder_id == self.destination_folder_id,
            r.0.names == self.names,
            r.0.allow_existing == self.allow_existing,
            r.0.config_path == self.config_path,
            match (self.stage, event) {
                (PreflightStage::Authorizing, PreflightEvent::Finished { success, stderr }) => if success {
                    r.0.stage == PreflightStage::Resolving && (r.1 matches PreflightAction::ResolveFolder(id)
                        && id@ == self.destination_folder_id@)
                } else {
                    r.0.stage == PreflightStage::Finished && (r.1 matches PreflightAction::Finish(Err(m))
                        && m@ == "My Drive RW authorization failed: "@ + crate::text::trim(stderr@))
                },
                (PreflightStage::Resolving, PreflightEvent::Folder { drive_id, can_add_children }) => if drive_id@
                    != self.destination_drive_id@ {
                    r.0.stage == PreflightStage::Finished && (r.1 matches PreflightAction::Finish(Err(m))
                        && m@ == "The destination now resolves to a different Shared Drive"@)
                } else if !can_add_children {
                    r.0.stage == PreflightStage::Finished && (r.1 matches PreflightAction::Finish(Err(m))
                        && m@ == "The My Drive RW account cannot add content to the destination folder"@)
                } else {
                    r.0.stage == PreflightStage::Listing && (r.1 matches PreflightAction::Run(args)
                        && crate::text::strings_view(args@) == listing_arguments(
                        self.destination_drive_id@,
                        self.destination_folder_id@,
                        self.config_path@,
                    ))
                },
                (PreflightStage::Listing, PreflightEvent::Finished { success, stderr }) => if success {
                    r.0.stage == PreflightStage::Finished && (r.1 matches PreflightAction::Finish(Err(m))
                        && m@ == "Rclone listing finished without its contents"@)
                } else {
                    r.0.stage == PreflightStage::Finished && (r.1 matches PreflightAction::Finish(Err(m))
                        && m@ == "Unable to inspect the migration destination: "@ + crate::text::trim(stderr@))
                },
                (PreflightStage::Listing, PreflightEvent::Unreadable(e)) => r.0.stage == PreflightStage::Finished
                    && (r.1 matches PreflightAction::Finish(Err(m)) && m@ == "Unable to parse destination contents: "@
                    + e@),
                (PreflightStage::Listing, PreflightEvent::Listed(existing)) => r.0.stage == PreflightStage::Finished
                    && (r.1 matches PreflightAction::Finish(res) && match names_problem(
                    crate::text::strings_view(self.names@),
                    crate::text::strings_view(existing@),
                    self.allow_existing,
                    self.names@.len() as int,
                ) {
                    Some(m) => res matches Err(e) && e@ == m,
                    None => res is Ok,
                }),
                _ => r.0.stage == PreflightStage::Finished && (r.1 matches PreflightAction::Finish(Err(m))
                    && m@ == "Unexpected migration preflight step"@),
            },
    {
        let stage = self.stage;
        let mut next = self;
        match (stage, event) {
            (PreflightStage::Authorizing, PreflightEvent::Finished { success, stderr }) => {
                if success {
                    next.stage = PreflightStage::Resolving;
                    let id = next.destination_folder_id.clone();
                    (next, PreflightAction::ResolveFolder(id))
                } else {
                    next.stage = PreflightStage::Finished;
                    let mut m = "My Drive RW authorization failed: ".to_owned();
                    let t = crate::text::trim_str(stderr.as_str());
                    m.append(t.as_str());
                    (next, PreflightAction::Finish(Err(m)))
                }
            },
            (PreflightStage::Resolving, PreflightEvent::Folder { drive_id, can_add_children }) => {
                if drive_id != next.destination_drive_id {
                    next.stage = PreflightStage::Finished;
                    (
                        next,
                        PreflightAction::Finish(
                            Err("The destination now resolves to a different Shared Drive".to_owned()),
                        ),
                    )
                } else if !can_add_children {
                    next.stage = PreflightStage::Finished;
                    (
                        next,
                        PreflightAction::Finish(
                            Err(
                                "The My Drive RW account cannot add content to the destination folder".to_owned(),
                            ),
                        ),
                    )
                } else {
                    next.stage = PreflightStage::Listing;
                    let mut args: Vec<String> = Vec::new();
                    args.push("lsjson".to_owned());
                    args.push(
                        destination_remote(
                            next.destination_drive_id.as_str(),
                            next.destination_folder_id.as_str(),
                        ),
                    );
                    args.push("--max-depth".to_owned());
                    args.push("1".to_owned());
                    args.push("--config".to_owned());
                    args.push(next.config_path.clone());
                    assert(crate::text::strings_view(args@) =~= listing_arguments(
                        next.destination_drive_id@,
                        next.destination_folder_id@,
                        next.config_path@,
                    ));
                    (next, PreflightAction::Run(args))
                }
            },
            (PreflightStage::Listing, PreflightEvent::Finished { success, stderr }) => {
                if success {
                    next.stage = PreflightStage::Finished;
                    (
                        next,
                        PreflightAction::Finish(
                            Err("Rclone listing finished without its contents".to_owned()),
                        ),
                    )
                } else {
                    next.stage = PreflightStage::Finished;
                    let mut m = "Unable to inspect the migration destination: ".to_owned();
                    let t = crate::text::trim_str(stderr.as_str());
                    m.append(t.as_str());
                    (next, PreflightAction::Finish(Err(m)))
                }
            },
            (PreflightStage::Listing, PreflightEvent::Unreadable(e)) => {
                next.stage = PreflightStage::Finished;
                let mut m = "Unable to parse destination contents: ".to_owned();
                m.append(e.as_str());
                (next, PreflightAction::Finish(Err(m)))
            },
            (PreflightStage::Listing, PreflightEvent::Listed(existing)) => {
                next.stage = PreflightStage::Finished;
                let res = check_names(&next.names, &existing, next.allow_existing);
                (next, PreflightAction::Finish(res))
            },
            _ => {
                next.stage = PreflightStage::Finished;
                (next, PreflightAction::Finish(Err("Unexpected migration preflight step".to_owned())))
            },
        }
    }
}

} // verus!

verus! {

/// A Google Drive folder as Drive's metadata describes it.
#[derive(Debug)]
pub struct GoogleDriveFolder {
    pub id: String,
    pub name: String,
    /// The Shared Drive it belongs to; empty in My Drive.
    pub drive_id: String,
    pub parents: Vec<String>,
}

pub struct FolderView {
    pub id: Seq<char>,
    pub name: Seq<char>,
    pub drive_id: Seq<char>,
    pub parents: Seq<Seq<char>>,
}

impl View for GoogleDriveFolder {
    type V = FolderView;

    open spec fn view(&self) -> FolderView {
        FolderView {
            id: self.id@,
            name: self.name@,
            drive_id: self.drive_id@,
            parents: crate::text::strings_view(self.parents@),
        }
    }
}

pub open spec fn folders_view(s: Seq<GoogleDriveFolder>) -> Seq<FolderView> {
    s.map_values(|f: GoogleDriveFolder| f@)
}

fn clone_strings(v: &Vec<String>) -> (r: Vec<String>)
    ensures
        crate::text::strings_view(r@) == crate::text::strings_view(v@),
{
    let mut r: Vec<String> = Vec::new();
    let mut i: usize = 0;
    while i < v.len()
        invariant
            i <= v@.len(),
            crate::text::strings_view(r@) == crate::text::strings_view(v@).take(i as int),
        decreases v.len() - i,
    {
        let ghost before = crate::text::strings_view(r@);
        r.push(v[i].clone());
        assert(crate::text::strings_view(r@) =~= before.push(v@[i as int]@));
        assert(crate::text::strings_view(v@).take(i + 1) =~= crate::text::strings_view(v@).take(i as int).push(
            v@[i as int]@,
        ));
        i = i + 1;
    }
    assert(crate::text::strings_view(v@).take(v@.len() as int) =~= crate::text::strings_view(v@));
    r
}

impl GoogleDriveFolder {
    /// A field-by-field copy.
    pub fn duplicate(&self) -> (r: GoogleDriveFolder)
        ensures
            r@ == self@,
    {
        GoogleDriveFolder {
            id: self.id.clone(),
            name: self.name.clone(),
            drive_id: self.drive_id.clone(),
            parents: clone_strings(&self.parents),
        }
    }
}

/// A Shared Drive the account can read: its id and name.
#[derive(Debug, Clone)]
pub struct SharedDrive {
    pub id: String,
    pub name: String,
}

/// A checked migration destination.
#[derive(Debug)]
pub struct SharedDriveDestination {
    /// The Shared Drive; empty for My Drive.
    pub drive_id: String,
    pub drive_name: String,
    pub folder_id: String,
    pub folder_name: String,
    /// The folders from the drive's top down to the destination.
    pub folders: Vec<GoogleDriveFolder>,
}

pub open spec fn drives_view(s: Seq<SharedDrive>) -> Seq<(Seq<char>, Seq<char>)> {
    s.map_values(|d: SharedDrive| (d.id@, d.name@))
}

/// The first of the drives with this id.
pub open spec fn drive_with_id(drives: Seq<(Seq<char>, Seq<char>)>, id: Seq<char>) -> Option<(Seq<char>, Seq<char>)>
    decreases drives.len(),
{
    if drives.len() == 0 {
        None
    } else if drives[0].0 == id {
        Some(drives[0])
    } else {
        drive_with_id(drives.drop_first(), id)
    }
}

/// Where a chosen folder lies: `(drive id, drive name, folder name)`, the drive id
/// empty for My Drive, or why it cannot be a destination. A Shared Drive's top folder
/// takes the drive's name.
pub open spec fn destination_choice(
    drives: Seq<(Seq<char>, Seq<char>)>,
    folder: FolderView,
    require_shared_drive: bool,
) -> Result<(Seq<char>, Seq<char>, Seq<char>), Seq<char>> {
    if folder.drive_id.len() == 0 {
        if require_shared_drive {
            Err("My Drive migrations require a Shared Drive destination folder"@)
        } else {
            Ok((seq![], "My Drive"@, folder.name))
        }
    } else if drives.len() == 0 {
        Err("The authenticated read-only account cannot access any Shared Drives"@)
    } else {
        match drive_with_id(drives, folder.drive_id) {
            None => Err(
                "The destination belongs to a Shared Drive that is not available to the authenticated read-only account"@,
            ),
            Some(d) => Ok(
                (
                    d.0,
                    d.1,
                    if folder.id == d.0 {
                        d.1
                    } else {
                        folder.name
                    },
                ),
            ),
        }
    }
}

fn drive_index(drives: &Vec<SharedDrive>, id: &str) -> (r: Option<usize>)
    ensures
        match drive_with_id(drives_view(drives@), id@) {
            Some(d) => r matches Some(k) && k < drives@.len() && drives_view(drives@)[k as int] == d,
            None => r is None,
        },
{
    let ghost dv = drives_view(drives@);
    let mut k: usize = 0;
    assert(dv.skip(0) =~= dv);
    while k < drives.len()
        invariant
            k <= drives@.len(),
            dv == drives_view(drives@),
            drive_with_id(dv, id@) == drive_with_id(dv.skip(k as int), id@),
        decreases drives.len() - k,
    {
        assert(dv.skip(k as int)[0] == dv[k as int]);
        assert(dv.skip(k as int).drop_first() =~= dv.skip(k + 1));
        if str_eq(drives[k].id.as_str(), id) {
            return Some(k);
        }
        k = k + 1;
    }
    None
}

/// Which drive a chosen destination folder belongs to, or why it cannot be used
/// (`drives`: the Shared Drives the account can read). Returns the drive whose top
/// ends the walk up the folder's ancestors: empty for My Drive.
pub fn destination_drive(drives: &Vec<SharedDrive>, folder: &GoogleDriveFolder, require_shared_drive: bool) -> (r:
    Result<String, String>)
    ensures
        match destination_choice(drives_view(drives@), folder@, require_shared_drive) {
            Ok(c) => r matches Ok(id) && id@ == c.0,
            Err(m) => r matches Err(e) && e@ == m,
        },
{
    match validate_destination(drives, folder, require_shared_drive, Vec::new()) {
        Ok(d) => Ok(d.drive_id),
        Err(e) => Err(e),
    }
}

/// The checked destination: the drive and folder, with `folders`, the walk from the
/// drive's top down to the folder.
pub fn validate_destination(
    drives: &Vec<SharedDrive>,
    folder: &GoogleDriveFolder,
    require_shared_drive: bool,
    folders: Vec<GoogleDriveFolder>,
) -> (r: Result<SharedDriveDestination, String>)
    ensures
        match destination_choice(drives_view(drives@), folder@, require_shared_drive) {
            Ok(c) => r matches Ok(d) && d.drive_id@ == c.0 && d.drive_name@ == c.1 && d.folder_id@ == folder.id@
                && d.folder_name@ == c.2 && folders_view(d.folders@) == folders_view(folders@),
            Err(m) => r matches Err(e) && e@ == m,
        },
{
    if folder.drive_id.as_str().is_empty() {
        if require_shared_drive {
            return Err("My Drive migrations require a Shared Drive destination folder".to_owned());
        }
        return Ok(
            SharedDriveDestination {
                drive_id: String::new(),
                drive_name: "My Drive".to_owned(),
                folder_id: folder.id.clone(),
                folder_name: folder.name.clone(),
                folders,
            },
        );
    }
    if drives.len() == 0 {
        return Err("The authenticated read-only account cannot access any Shared Drives".to_owned());
    }
    match drive_index(drives, folder.drive_id.as_str()) {
        None => Err(
            "The destination belongs to a Shared Drive that is not available to the authenticated read-only account".to_owned(),
        ),
        Some(k) => {
            let drive = &drives[k];
            assert(drives_view(drives@)[k as int] == (drive.id@, drive.name@));
            let folder_name = if str_eq(folder.id.as_str(), drive.id.as_str()) {
                drive.name.clone()
            } else {
                folder.name.clone()
            };
            Ok(
                SharedDriveDestination {
                    drive_id: drive.id.clone(),
                    drive_name: drive.name.clone(),
                    folder_id: folder.id.clone(),
                    folder_name,
                    folders,
                },
            )
        },
    }
}

} // verus!

verus! {

/// The most parents read while walking up from a destination folder.
pub const MAX_ANCESTORS: u32 = 100;

/// The walk up from a destination folder to the top of its drive.
#[derive(Debug)]
pub struct FolderChain {
    /// The destination first, then each parent read.
    pub walked: Vec<GoogleDriveFolder>,
    /// The Shared Drive whose top ends the walk; empty for My Drive.
    pub stop_at: String,
    /// Parents read so far.
    pub rounds: u32,
}

/// What the walk asks for next.
#[derive(Debug)]
pub enum ChainAction {
    /// Read this folder's metadata and hand it to `step`.
    Fetch(String),
    /// The folders from the top down to the destination.
    Done(Vec<GoogleDriveFolder>),
    Failed(String),
}

pub enum ChainActionView {
    Fetch(Seq<char>),
    Done(Seq<FolderView>),
    Failed(Seq<char>),
}

impl View for ChainAction {
    type V = ChainActionView;

    open spec fn view(&self) -> ChainActionView {
        match self {
            ChainAction::Fetch(id) => ChainActionView::Fetch(id@),
            ChainAction::Done(f) => ChainActionView::Done(folders_view(f@)),
            ChainAction::Failed(m) => ChainActionView::Failed(m@),
        }
    }
}

/// The next move of the walk: done after the most rounds, at a folder without
/// parents, or at the Shared Drive's top; else read the first parent.
pub open spec fn chain_decision(walked: Seq<FolderView>, stop_at: Seq<char>, rounds: nat) -> ChainActionView {
    if rounds >= MAX_ANCESTORS || walked.last().parents.len() == 0 {
        ChainActionView::Done(walked.reverse())
    } else if stop_at.len() > 0 && walked.last().parents[0] == stop_at {
        ChainActionView::Done(walked.reverse())
    } else {
        ChainActionView::Fetch(walked.last().parents[0])
    }
}

fn reversed(v: &Vec<GoogleDriveFolder>) -> (r: Vec<GoogleDriveFolder>)
    ensures
        folders_view(r@) == folders_view(v@).reverse(),
{
    let ghost vv = folders_view(v@);
    let mut r: Vec<GoogleDriveFolder> = Vec::new();
    let mut i: usize = v.len();
    while i > 0
        invariant
            i <= v@.len(),
            vv == folders_view(v@),
            folders_view(r@).len() == v@.len() - i,
            forall|k: int| 0 <= k < v@.len() - i ==> #[trigger] folders_view(r@)[k] == vv[v@.len() - 1 - k],
        decreases i,
    {
        let ghost before = folders_view(r@);
        r.push(v[i - 1].duplicate());
        assert(folders_view(r@) =~= before.push(vv[i - 1]));
        i = i - 1;
    }
    assert(folders_view(r@) =~= vv.reverse());
    r
}

impl FolderChain {
    fn decide(self) -> (r: (FolderChain, ChainAction))
        requires
            self.walked@.len() > 0,
        ensures
            folders_view(r.0.walked@) == folders_view(self.walked@),
            r.0.stop_at@ == self.stop_at@,
            r.0.rounds == self.rounds,
            r.1@ == chain_decision(folders_view(self.walked@), self.stop_at@, self.rounds as nat),
    {
        let n = self.walked.len();
        let ghost wv = folders_view(self.walked@);
        assert(wv.last() == self.walked@[n - 1]@);
        if self.rounds >= MAX_ANCESTORS || self.walked[n - 1].parents.len() == 0 {
            let done = reversed(&self.walked);
            return (self, ChainAction::Done(done));
        }
        assert(wv.last().parents[0] == self.walked@[n - 1].parents@[0]@);
        if !self.stop_at.as_str().is_empty() && str_eq(self.walked[n - 1].parents[0].as_str(), self.stop_at.as_str()) {
            let done = reversed(&self.walked);
            return (self, ChainAction::Done(done));
        }
        let parent = self.walked[n - 1].parents[0].clone();
        (self, ChainAction::Fetch(parent))
    }

    /// Starts the walk at the destination folder, ending at the top of `stop_at` (the
    /// Shared Drive; empty for My Drive).
    pub fn start(destination: GoogleDriveFolder, stop_at: String) -> (r: (FolderChain, ChainAction))
        ensures
            folders_view(r.0.walked@) == seq![destination@],
            r.0.stop_at@ == stop_at@,
            r.0.rounds == 0,
            r.1@ == chain_decision(seq![destination@], stop_at@, 0),
    {
        let ghost d = destination@;
        let mut walked: Vec<GoogleDriveFolder> = Vec::new();
        walked.push(destination);
        assert(folders_view(walked@) =~= seq![d]);
        FolderChain { walked, stop_at, rounds: 0 }.decide()
    }

    /// Takes the parent that was asked for: a parent in another drive fails the walk;
    /// My Drive's root (a folder without parents, when no Shared Drive is walked) ends
    /// it without being kept; any other parent is kept and the walk goes on.
    pub fn step(self, parent: GoogleDriveFolder) -> (r: (FolderChain, ChainAction))
        requires
            self.walked@.len() > 0,
            self.rounds < MAX_ANCESTORS,
        ensures
            parent.drive_id@ != self.walked@[0].drive_id@ ==> r.1@ == ChainActionView::Failed(
                "Destination folder ancestry crosses Google Drive boundaries"@,
            ),
            parent.drive_id@ == self.walked@[0].drive_id@ && self.stop_at@.len() == 0 && parent.parents@.len()
                == 0 ==> r.1@ == ChainActionView::Done(folders_view(self.walked@).reverse()),
            parent.drive_id@ == self.walked@[0].drive_id@ && !(self.stop_at@.len() == 0 && parent.parents@.len()
                == 0) ==> {
                &&& folders_view(r.0.walked@) == folders_view(self.walked@).push(parent@)
                &&& r.0.stop_at@ == self.stop_at@
                &&& r.0.rounds == self.rounds + 1
                &&& r.1@ == chain_decision(
                    folders_view(self.walked@).push(parent@),
                    self.stop_at@,
                    (self.rounds + 1) as nat,
                )
            },
    {
        if !str_eq(parent.drive_id.as_str(), self.walked[0].drive_id.as_str()) {
            return (self, ChainAction::Failed("Destination folder ancestry crosses Google Drive boundaries".to_owned()));
        }
        if self.stop_at.as_str().is_empty() && parent.parents.len() == 0 {
            let done = reversed(&self.walked);
            return (self, ChainAction::Done(done));
        }
        let FolderChain { walked, stop_at, rounds } = self;
        let ghost before = folders_view(walked@);
        let ghost p = parent@;
        let mut walked = walked;
        walked.push(parent);
        assert(folders_view(walked@) =~= before.push(p));
        FolderChain { walked, stop_at, rounds: rounds + 1 }.decide()
    }
}

} // verus!
