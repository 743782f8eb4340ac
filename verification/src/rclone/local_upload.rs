//! Uploads of indexed local files: the checks of the saved file lists and the Rclone
//! commands that copy exactly the indexed selection.
use vstd::prelude::*;
use crate::database::local_migration::{Entry, parts_ok, relative_path_ok};
use crate::paths::{absolute_path, components_of, components_view, is_absolute_path, path_components, same_components};
use crate::rclone::migration::{destination_address, destination_remote};
use crate::text::{chars_of, split_chars, split_on, string_from_chars};

verus! {

/// The first problem with the saved file lists of a migration's sources: a source
/// with no saved entry, or the first failed check of an entry, source by source.
pub open spec fn sources_problem(checks: Seq<Seq<Result<(), Seq<char>>>>) -> Option<Seq<char>>
    decreases checks.len(),
{
    if checks.len() == 0 {
        None
    } else {
        match sources_problem(checks.drop_last()) {
            Some(m) => Some(m),
            None => if checks.last().len() == 0 {
                Some("The local migration has no saved file list. Create a new plan."@)
            } else {
                first_failure(checks.last())
            },
        }
    }
}

/// The first failed check of a list.
pub open spec fn first_failure(checks: Seq<Result<(), Seq<char>>>) -> Option<Seq<char>>
    decreases checks.len(),
{
    if checks.len() == 0 {
        None
    } else {
        match first_failure(checks.drop_last()) {
            Some(m) => Some(m),
            None => match checks.last() {
                Err(m) => Some(m),
                Ok(()) => None,
            },
        }
    }
}

pub open spec fn checks_view(c: Seq<Vec<Result<(), String>>>) -> Seq<Seq<Result<(), Seq<char>>>> {
    c.map_values(|l: Vec<Result<(), String>>| check_list_view(l@))
}

pub open spec fn check_list_view(l: Seq<Result<(), String>>) -> Seq<Result<(), Seq<char>>> {
    l.map_values(
        |x: Result<(), String>|
            match x {
                Ok(()) => Ok(()),
                Err(m) => Err(m@),
            },
    )
}

fn first_failure_of(checks: &Vec<Result<(), String>>) -> (r: Option<String>)
    ensures
        match first_failure(check_list_view(checks@)) {
            Some(m) => r matches Some(s) && s@ == m,
            None => r is None,
        },
{
    let ghost cv = check_list_view(checks@);
    let mut i: usize = 0;
    while i < checks.len()
        invariant
            i <= checks@.len(),
            cv == check_list_view(checks@),
            first_failure(cv.take(i as int)) is None,
        decreases checks.len() - i,
    {
        proof {
            assert(cv.take(i + 1).drop_last() =~= cv.take(i as int));
        }
        match &checks[i] {
            Err(m) => {
                proof {
                    assert(cv[i as int] == Err::<(), Seq<char>>(m@));
                    assert(cv.take(i + 1).last() == cv[i as int]);
                    lemma_first_failure_stops(cv, i as int + 1, cv.len() as int);
                    assert(cv.take(cv.len() as int) =~= cv);
                }
                return Some(m.clone());
            },
            Ok(()) => {},
        }
        i = i + 1;
    }
    assert(cv.take(cv.len() as int) =~= cv);
    None
}

proof fn lemma_first_failure_stops(c: Seq<Result<(), Seq<char>>>, k: int, n: int)
    requires
        0 < k <= n <= c.len(),
        first_failure(c.take(k)) is Some,
    ensures
        first_failure(c.take(n)) == first_failure(c.take(k)),
    decreases n - k,
{
    if n > k {
        lemma_first_failure_stops(c, k, n - 1);
        assert(c.take(n).drop_last() =~= c.take(n - 1));
    }
}

/// Checks the saved file lists of a local migration before anything is copied:
/// `checks[s]` holds, for each saved entry of source `s`, the outcome of checking its
/// path on disk.
pub fn validate_sources(checks: &Vec<Vec<Result<(), String>>>) -> (r: Result<(), String>)
    ensures
        match sources_problem(checks_view(checks@)) {
            Some(m) => r matches Err(e) && e@ == m,
            None => r is Ok,
        },
{
    let ghost cv = checks_view(checks@);
    let mut s: usize = 0;
    while s < checks.len()
        invariant
            s <= checks@.len(),
            cv == checks_view(checks@),
            sources_problem(cv.take(s as int)) is None,
        decreases checks.len() - s,
    {
        proof {
            assert(cv.take(s + 1).drop_last() =~= cv.take(s as int));
            assert(cv.take(s + 1).last() == check_list_view(checks@[s as int]@));
        }
        let problem = if checks[s].len() == 0 {
            Some("The local migration has no saved file list. Create a new plan.".to_owned())
        } else {
            first_failure_of(&checks[s])
        };
        match problem {
            Some(m) => {
                proof {
                    lemma_sources_problem_stops(cv, s as int + 1, cv.len() as int);
                    assert(cv.take(cv.len() as int) =~= cv);
                }
                return Err(m);
            },
            None => {},
        }
        s = s + 1;
    }
    assert(cv.take(cv.len() as int) =~= cv);
    Ok(())
}

proof fn lemma_sources_problem_stops(c: Seq<Seq<Result<(), Seq<char>>>>, k: int, n: int)
    requires
        0 < k <= n <= c.len(),
        sources_problem(c.take(k)) is Some,
    ensures
        sources_problem(c.take(n)) == sources_problem(c.take(k)),
    decreases n - k,
{
    if n > k {
        lemma_sources_problem_stops(c, k, n - 1);
        assert(c.take(n).drop_last() =~= c.take(n - 1));
    }
}

/// The checks of a saved entry made before its path is read: a valid relative path
/// under an absolute root. Returns the components to walk below the root, each of
/// which must not be a symbolic link.
pub fn check_entry(entry: &Entry) -> (r: Result<Vec<String>, String>)
    ensures
        !(parts_ok(entry.relative_path@) && !absolute_path(entry.relative_path@)) ==> (r matches Err(m)
            && m@ == "Invalid indexed local path; update Local Files metadata"@),
        (parts_ok(entry.relative_path@) && !absolute_path(entry.relative_path@)) && !absolute_path(
            entry.root_path@,
        ) ==> (r matches Err(m) && m@ == "Invalid local migration root"@),
        (parts_ok(entry.relative_path@) && !absolute_path(entry.relative_path@)) && absolute_path(
            entry.root_path@,
        ) ==> (r matches Ok(parts) && crate::text::strings_view(parts@) == split_on(entry.relative_path@, '/')),
{
    let relative_absolute = is_absolute_path(entry.relative_path.as_str());
    if relative_path_ok(entry.relative_path.as_str(), relative_absolute).is_err() {
        return Err("Invalid indexed local path; update Local Files metadata".to_owned());
    }
    if !is_absolute_path(entry.root_path.as_str()) {
        return Err("Invalid local migration root".to_owned());
    }
    let chars = chars_of(entry.relative_path.as_str());
    let pieces = split_chars(&chars, '/');
    let mut parts: Vec<String> = Vec::new();
    let mut i: usize = 0;
    while i < pieces.len()
        invariant
            i <= pieces@.len(),
            pieces.deep_view() == split_on(entry.relative_path@, '/'),
            crate::text::strings_view(parts@) == split_on(entry.relative_path@, '/').take(i as int),
        decreases pieces.len() - i,
    {
        assert(pieces@[i as int]@ == pieces.deep_view()[i as int]);
        let ghost before = crate::text::strings_view(parts@);
        parts.push(string_from_chars(pieces[i].as_slice()));
        assert(crate::text::strings_view(parts@) =~= before.push(pieces.deep_view()[i as int]));
        assert(split_on(entry.relative_path@, '/').take(i + 1) =~= split_on(entry.relative_path@, '/').take(
            i as int,
        ).push(pieces.deep_view()[i as int]));
        i = i + 1;
    }
    assert(split_on(entry.relative_path@, '/').take(pieces@.len() as int) =~= split_on(entry.relative_path@, '/'));
    Ok(parts)
}

/// The error for a walked component that became a symbolic link.
pub fn symlink_error(path: &str) -> (r: String)
    ensures
        r@ == "Local source became a symbolic link: "@ + path@ + ". Reindex and create a new plan."@,
{
    let mut m = "Local source became a symbolic link: ".to_owned();
    m.append(path);
    m.append(". Reindex and create a new plan.");
    m
}

/// The check of a saved entry against what is on disk now: a folder must still be a
/// folder, and a file a regular file.
pub fn check_type(entry_is_directory: bool, is_dir: bool, is_file: bool, path: &str) -> (r: Result<(), String>)
    ensures
        (is_dir != entry_is_directory || (!entry_is_directory && !is_file)) ==> (r matches Err(m) && m@
            == "Local source changed type: "@ + path@ + ". Reindex and create a new plan."@),
        !(is_dir != entry_is_directory || (!entry_is_directory && !is_file)) ==> r is Ok,
{
    if is_dir != entry_is_directory || (!entry_is_directory && !is_file) {
        let mut m = "Local source changed type: ".to_owned();
        m.append(path);
        m.append(". Reindex and create a new plan.");
        return Err(m);
    }
    Ok(())
}

} // verus!

verus! {

/// A relative path's names joined with `/`.
pub open spec fn names_text(c: Seq<(u8, Seq<char>)>) -> Seq<char>
    decreases c.len(),
{
    if c.len() == 0 {
        seq![]
    } else if c.len() == 1 {
        c[0].1
    } else {
        names_text(c.drop_last()) + "/"@ + c.last().1
    }
}

/// A text with every `\` read as `/`.
pub open spec fn forward_slashes(s: Seq<char>) -> Seq<char> {
    s.map_values(|c: char| if c == '\\' { '/' } else { c })
}

/// A text without its trailing `/`s.
pub open spec fn trim_end_slashes(s: Seq<char>) -> Seq<char>
    decreases s.len(),
{
    if s.len() > 0 && s.last() == '/' {
        trim_end_slashes(s.drop_last())
    } else {
        s
    }
}

/// Where an empty indexed folder is created: the destination itself for the source
/// folder, else below it.
pub open spec fn folder_target(destination: Seq<char>, suffix: Seq<char>) -> Seq<char> {
    if suffix.len() == 0 {
        destination
    } else {
        trim_end_slashes(destination) + "/"@ + suffix
    }
}

/// The saved entries' paths relative to the source folder (component lists), when all
/// of them lie inside it.
pub open spec fn relative_paths(source: Seq<(u8, Seq<char>)>, paths: Seq<Seq<(u8, Seq<char>)>>) -> Option<
    Seq<Seq<(u8, Seq<char>)>>,
> {
    if forall|k: int| 0 <= k < paths.len() ==> source.is_prefix_of(#[trigger] paths[k]) {
        Some(paths.map_values(|p: Seq<(u8, Seq<char>)>| p.skip(source.len() as int)))
    } else {
        None
    }
}

/// The manifest lines: the saved files, relative to the source folder, in order.
pub open spec fn listed_files(dirs: Seq<bool>, rels: Seq<Seq<(u8, Seq<char>)>>) -> Seq<Seq<char>>
    decreases rels.len(),
{
    if rels.len() == 0 {
        seq![]
    } else {
        let prev = listed_files(dirs.drop_last(), rels.drop_last());
        if dirs.last() {
            prev
        } else {
            prev.push(forward_slashes(names_text(rels.last())))
        }
    }
}

/// The saved folders, relative to the source folder, in order.
pub open spec fn listed_folders(dirs: Seq<bool>, rels: Seq<Seq<(u8, Seq<char>)>>) -> Seq<Seq<(u8, Seq<char>)>>
    decreases rels.len(),
{
    if rels.len() == 0 {
        seq![]
    } else {
        let prev = listed_folders(dirs.drop_last(), rels.drop_last());
        if dirs.last() {
            prev.push(rels.last())
        } else {
            prev
        }
    }
}

/// Whether a saved entry lies directly in folder `d`.
pub open spec fn has_child(rels: Seq<Seq<(u8, Seq<char>)>>, d: Seq<(u8, Seq<char>)>) -> bool {
    exists|k: int| 0 <= k < rels.len() && rels[k].len() > 0 && (#[trigger] rels[k]).drop_last() == d
}

/// The empty leaf folders, which copying files does not create, as `mkdir` targets.
pub open spec fn empty_folder_targets(
    destination: Seq<char>,
    folders: Seq<Seq<(u8, Seq<char>)>>,
    rels: Seq<Seq<(u8, Seq<char>)>>,
) -> Seq<Seq<char>>
    decreases folders.len(),
{
    if folders.len() == 0 {
        seq![]
    } else {
        let prev = empty_folder_targets(destination, folders.drop_last(), rels);
        if has_child(rels, folders.last()) {
            prev
        } else {
            prev.push(folder_target(destination, forward_slashes(names_text(folders.last()))))
        }
    }
}

/// What uploading one local source takes: a single `copyto` for a file; for a folder,
/// a listed copy of its saved files (when there are any) and a `mkdir` of each empty
/// saved leaf folder.
#[derive(Debug, Clone)]
pub struct UploadPlan {
    /// The remote address the source is copied to.
    pub destination: String,
    /// The source is a file, copied alone.
    pub single_file: bool,
    /// The manifest: the saved files relative to the source folder, `/`-separated.
    pub files: Vec<String>,
    /// The folders to create with `mkdir`.
    pub folders: Vec<String>,
}

pub struct UploadPlanView {
    pub destination: Seq<char>,
    pub single_file: bool,
    pub files: Seq<Seq<char>>,
    pub folders: Seq<Seq<char>>,
}

impl View for UploadPlan {
    type V = UploadPlanView;

    open spec fn view(&self) -> UploadPlanView {
        UploadPlanView {
            destination: self.destination@,
            single_file: self.single_file,
            files: crate::text::strings_view(self.files@),
            folders: crate::text::strings_view(self.folders@),
        }
    }
}

pub open spec fn entry_dirs(entries: Seq<Entry>) -> Seq<bool> {
    entries.map_values(|e: Entry| e.is_directory)
}

pub open spec fn path_keys(paths: Seq<String>) -> Seq<Seq<(u8, Seq<char>)>> {
    paths.map_values(|p: String| components_of(p@))
}

/// The upload of a local source, given its saved entries, their paths on disk now
/// (`paths`, checked and canonical), and the source's own canonical path.
pub open spec fn upload_plan(
    name: Seq<char>,
    is_directory: bool,
    dirs: Seq<bool>,
    paths: Seq<Seq<(u8, Seq<char>)>>,
    source: Seq<(u8, Seq<char>)>,
    destination: Seq<char>,
) -> Result<UploadPlanView, Seq<char>> {
    let target = destination + name;
    if dirs.len() == 0 {
        Err("Local migration file list is empty"@)
    } else if !(exists|k: int| 0 <= k < paths.len() && #[trigger] paths[k] == source && dirs[k] == is_directory) {
        Err("The selected local source is missing from its saved file list"@)
    } else if !is_directory {
        Ok(UploadPlanView { destination: target, single_file: true, files: seq![], folders: seq![] })
    } else {
        match relative_paths(source, paths) {
            None => Err("A saved file is outside the selected folder"@),
            Some(rels) => Ok(
                UploadPlanView {
                    destination: target,
                    single_file: false,
                    files: listed_files(dirs, rels),
                    folders: empty_folder_targets(target, listed_folders(dirs, rels), rels),
                },
            ),
        }
    }
}

pub(crate) fn names_text_of(c: &Vec<(u8, String)>) -> (r: String)
    ensures
        r@ == names_text(components_view(c@)),
{
    let ghost cv = components_view(c@);
    let mut r = String::new();
    let mut i: usize = 0;
    while i < c.len()
        invariant
            i <= c@.len(),
            cv == components_view(c@),
            r@ == names_text(cv.take(i as int)),
        decreases c.len() - i,
    {
        proof {
            assert(cv.take(i + 1).drop_last() =~= cv.take(i as int));
            assert(cv[i as int].1 == c@[i as int].1@);
        }
        if i > 0 {
            r.append("/");
        }
        r.append(c[i].1.as_str());
        proof {
            if i == 0 {
                assert(r@ =~= cv.take(1)[0].1);
            } else {
                assert(r@ =~= names_text(cv.take(i as int)) + "/"@ + cv.take(i + 1).last().1);
            }
        }
        i = i + 1;
    }
    assert(cv.take(cv.len() as int) =~= cv);
    r
}

pub(crate) fn forward_slashes_of(s: &str) -> (r: String)
    ensures
        r@ == forward_slashes(s@),
{
    let v = chars_of(s);
    let mut out: Vec<char> = Vec::new();
    let mut i: usize = 0;
    while i < v.len()
        invariant
            i <= v@.len(),
            v@ == s@,
            out@ == forward_slashes(s@).take(i as int),
        decreases v.len() - i,
    {
        out.push(if v[i] == '\\' { '/' } else { v[i] });
        assert(out@ =~= forward_slashes(s@).take(i + 1));
        i = i + 1;
    }
    assert(forward_slashes(s@).take(v@.len() as int) =~= forward_slashes(s@));
    string_from_chars(out.as_slice())
}

fn trim_end_slashes_of(s: &str) -> (r: String)
    ensures
        r@ == trim_end_slashes(s@),
{
    let v = chars_of(s);
    let mut n: usize = v.len();
    assert(v@.take(n as int) =~= v@);
    while n > 0 && v[n - 1] == '/'
        invariant
            n <= v@.len(),
            v@ == s@,
            trim_end_slashes(s@) == trim_end_slashes(v@.take(n as int)),
        decreases n,
    {
        assert(v@.take(n as int).drop_last() =~= v@.take(n - 1));
        n = n - 1;
    }
    let kept = crate::text::slice_chars(v.as_slice(), 0, n);
    assert(kept@ =~= v@.take(n as int));
    string_from_chars(kept.as_slice())
}

fn folder_target_of(destination: &str, suffix: &str) -> (r: String)
    ensures
        r@ == folder_target(destination@, suffix@),
{
    if suffix.is_empty() {
        return destination.to_owned();
    }
    let mut r = trim_end_slashes_of(destination);
    r.append("/");
    r.append(suffix);
    r
}

fn has_child_of(rels: &Vec<Vec<(u8, String)>>, d: &Vec<(u8, String)>) -> (r: bool)
    ensures
        r == has_child(keys_view(rels@), components_view(d@)),
{
    let ghost rv = keys_view(rels@);
    let mut k: usize = 0;
    while k < rels.len()
        invariant
            k <= rels@.len(),
            rv == keys_view(rels@),
            forall|m: int| 0 <= m < k ==> !(rv[m].len() > 0 && (#[trigger] rv[m]).drop_last() == components_view(d@)),
        decreases rels.len() - k,
    {
        assert(rv[k as int] == components_view(rels@[k as int]@));
        if rels[k].len() > 0 {
            let n = rels[k].len() - 1;
            let same = same_components(&rels[k], d, n);
            assert(components_view(rels@[k as int]@).take(n as int) =~= rv[k as int].drop_last());
            if same {
                return true;
            }
        }
        k = k + 1;
    }
    false
}

pub open spec fn keys_view(keys: Seq<Vec<(u8, String)>>) -> Seq<Seq<(u8, Seq<char>)>> {
    keys.map_values(|k: Vec<(u8, String)>| components_view(k@))
}

pub(crate) fn tail_components(p: &Vec<(u8, String)>, from: usize) -> (r: Vec<(u8, String)>)
    requires
        from <= p@.len(),
    ensures
        components_view(r@) == components_view(p@).skip(from as int),
{
    let mut r: Vec<(u8, String)> = Vec::new();
    let mut i: usize = from;
    while i < p.len()
        invariant
            from <= i <= p@.len(),
            components_view(r@) == components_view(p@).skip(from as int).take(i - from),
        decreases p.len() - i,
    {
        let ghost before = components_view(r@);
        r.push((p[i].0, p[i].1.clone()));
        assert(components_view(r@) =~= before.push(components_view(p@)[i as int]));
        assert(components_view(p@).skip(from as int).take(i + 1 - from) =~= components_view(p@).skip(
            from as int,
        ).take(i - from).push(components_view(p@)[i as int]));
        i = i + 1;
    }
    assert(components_view(p@).skip(from as int).take(p@.len() - from) =~= components_view(p@).skip(from as int));
    r
}

/// The upload of a local source of a migration into destination folder `folder_id`
/// (of Shared Drive `drive_id`, or My Drive when empty), given its saved entries,
/// their checked canonical paths, and the source's canonical path.
pub fn copy_source(
    name: &str,
    is_directory: bool,
    entries: &Vec<Entry>,
    paths: &Vec<String>,
    source_path: &str,
    drive_id: &str,
    folder_id: &str,
) -> (r: Result<UploadPlan, String>)
    requires
        paths@.len() == entries@.len(),
    ensures
        match upload_plan(
            name@,
            is_directory,
            entry_dirs(entries@),
            path_keys(paths@),
            components_of(source_path@),
            destination_address(drive_id@, folder_id@),
        ) {
            Ok(p) => r matches Ok(plan) && plan@ == p,
            Err(m) => r matches Err(e) && e@ == m,
        },
{
    let ghost dirs = entry_dirs(entries@);
    let ghost keys = path_keys(paths@);
    let mut destination = destination_remote(drive_id, folder_id);
    destination.append(name);
    if entries.len() == 0 {
        return Err("Local migration file list is empty".to_owned());
    }
    let source = path_components(source_path);
    let mut comps: Vec<Vec<(u8, String)>> = Vec::new();
    let mut found = false;
    let mut k: usize = 0;
    while k < paths.len()
        invariant
            k <= paths@.len(),
            paths@.len() == entries@.len(),
            dirs == entry_dirs(entries@),
            keys == path_keys(paths@),
            components_view(source@) == components_of(source_path@),
            keys_view(comps@) == keys.take(k as int),
            found == exists|m: int| 0 <= m < k && #[trigger] keys[m] == components_of(source_path@) && dirs[m]
                == is_directory,
        decreases paths.len() - k,
    {
        let c = path_components(paths[k].as_str());
        let ghost before = keys_view(comps@);
        assert(keys[k as int] == components_of(paths@[k as int]@));
        if entries[k].is_directory == is_directory && c.len() == source.len() && same_components(
            &c,
            &source,
            c.len(),
        ) {
            found = true;
        }
        proof {
            assert(components_view(c@).take(c@.len() as int) =~= components_view(c@));
            assert(dirs[k as int] == entries@[k as int].is_directory);
        }
        comps.push(c);
        assert(keys_view(comps@) =~= before.push(keys[k as int]));
        k = k + 1;
    }
    assert(keys.take(keys.len() as int) =~= keys);
    if !found {
        return Err("The selected local source is missing from its saved file list".to_owned());
    }
    if !is_directory {
        let plan = UploadPlan { destination, single_file: true, files: Vec::new(), folders: Vec::new() };
        assert(plan@.files =~= seq![]);
        assert(plan@.folders =~= seq![]);
        return Ok(plan);
    }
    let ghost sv = components_of(source_path@);
    let mut rels: Vec<Vec<(u8, String)>> = Vec::new();
    let mut files: Vec<String> = Vec::new();
    let mut folders: Vec<Vec<(u8, String)>> = Vec::new();
    let mut i: usize = 0;
    while i < comps.len()
        invariant
            i <= comps@.len(),
            comps@.len() == entries@.len(),
            dirs == entry_dirs(entries@),
            keys_view(comps@) == keys,
            components_view(source@) == sv,
            is_directory,
            dirs.len() > 0,
            keys == path_keys(paths@),
            sv == components_of(source_path@),
            exists|m: int| 0 <= m < keys.len() && #[trigger] keys[m] == sv && dirs[m] == is_directory,
            forall|m: int| 0 <= m < i ==> sv.is_prefix_of(#[trigger] keys[m]),
            keys_view(rels@) == keys.take(i as int).map_values(|p: Seq<(u8, Seq<char>)>| p.skip(sv.len() as int)),
            crate::text::strings_view(files@) == listed_files(dirs.take(i as int), keys_view(rels@)),
            keys_view(folders@) == listed_folders(dirs.take(i as int), keys_view(rels@)),
        decreases comps.len() - i,
    {
        assert(keys[i as int] == components_view(comps@[i as int]@));
        if source.len() > comps[i].len() || !same_components(&comps[i], &source, source.len()) {
            proof {
                assert(!sv.is_prefix_of(keys[i as int])) by {
                    if sv.is_prefix_of(keys[i as int]) {
                        assert(keys[i as int].take(sv.len() as int) =~= sv);
                    }
                }
                assert(relative_paths(sv, keys) is None);
            }
            return Err("A saved file is outside the selected folder".to_owned());
        }
        proof {
            assert(components_view(comps@[i as int]@).take(sv.len() as int) =~= keys[i as int].subrange(0, sv.len() as int));
        }
        let rel = tail_components(&comps[i], source.len());
        let ghost old_rels = keys_view(rels@);
        let ghost old_files = crate::text::strings_view(files@);
        let ghost old_folders = keys_view(folders@);
        let ghost new_rels = old_rels.push(components_view(rel@));
        proof {
            assert(dirs.take(i + 1).drop_last() =~= dirs.take(i as int));
            assert(new_rels.drop_last() =~= old_rels);
            assert(dirs.take(i + 1).last() == entries@[i as int].is_directory);
        }
        if entries[i].is_directory {
            let copy = tail_components(&comps[i], source.len());
            folders.push(copy);
            assert(keys_view(folders@) =~= old_folders.push(components_view(rel@)));
        } else {
            let text = names_text_of(&rel);
            let line = forward_slashes_of(text.as_str());
            files.push(line);
            assert(crate::text::strings_view(files@) =~= old_files.push(line@));
        }
        rels.push(rel);
        assert(keys_view(rels@) =~= new_rels);
        assert(keys.take(i + 1).map_values(|p: Seq<(u8, Seq<char>)>| p.skip(sv.len() as int)) =~= keys.take(
            i as int,
        ).map_values(|p: Seq<(u8, Seq<char>)>| p.skip(sv.len() as int)).push(keys[i as int].skip(sv.len() as int)));
        i = i + 1;
    }
    let ghost rv = keys_view(rels@);
    proof {
        assert(keys.take(keys.len() as int) =~= keys);
        assert(dirs.take(dirs.len() as int) =~= dirs);
        assert(relative_paths(sv, keys) == Some(rv));
    }
    let ghost fv = keys_view(folders@);
    let mut targets: Vec<String> = Vec::new();
    let mut j: usize = 0;
    while j < folders.len()
        invariant
            j <= folders@.len(),
            fv == keys_view(folders@),
            rv == keys_view(rels@),
            crate::text::strings_view(targets@) == empty_folder_targets(destination@, fv.take(j as int), rv),
        decreases folders.len() - j,
    {
        proof {
            assert(fv.take(j + 1).drop_last() =~= fv.take(j as int));
            assert(fv.take(j + 1).last() == components_view(folders@[j as int]@));
        }
        if !has_child_of(&rels, &folders[j]) {
            let text = names_text_of(&folders[j]);
            let suffix = forward_slashes_of(text.as_str());
            let target = folder_target_of(destination.as_str(), suffix.as_str());
            let ghost before = crate::text::strings_view(targets@);
            targets.push(target);
            assert(crate::text::strings_view(targets@) =~= before.push(target@));
        }
        j = j + 1;
    }
    assert(fv.take(fv.len() as int) =~= fv);
    Ok(UploadPlan { destination, single_file: false, files, folders: targets })
}

/// The options every upload command shares.
pub open spec fn common_arguments(config_path: Seq<char>) -> Seq<Seq<char>> {
    seq!["--config"@, config_path, "--copy-links=false"@, "--links=false"@]
}

fn push_common(args: &mut Vec<String>, config_path: &str)
    ensures
        crate::text::strings_view(final(args)@) == crate::text::strings_view(old(args)@) + common_arguments(
            config_path@,
        ),
{
    let ghost before = crate::text::strings_view(args@);
    args.push("--config".to_owned());
    args.push(config_path.to_owned());
    args.push("--copy-links=false".to_owned());
    args.push("--links=false".to_owned());
    assert(crate::text::strings_view(args@) =~= before + common_arguments(config_path@));
}

/// `copyto` of a single file, with `--immutable` when nothing may be overwritten.
pub fn copy_file_arguments(source_path: &str, destination: &str, config_path: &str, immutable: bool) -> (r: Vec<
    String,
>)
    ensures
        crate::text::strings_view(r@) == seq!["copyto"@, source_path@, destination@] + common_arguments(config_path@)
            + if immutable {
            seq!["--immutable"@]
        } else {
            seq![]
        },
{
    let mut args: Vec<String> = Vec::new();
    args.push("copyto".to_owned());
    args.push(source_path.to_owned());
    args.push(destination.to_owned());
    push_common(&mut args, config_path);
    let ghost before = crate::text::strings_view(args@);
    assert(before =~= seq!["copyto"@, source_path@, destination@] + common_arguments(config_path@));
    if immutable {
        args.push("--immutable".to_owned());
        assert(crate::text::strings_view(args@) =~= before.push("--immutable"@));
    } else {
        assert(crate::text::strings_view(args@) =~= before + seq![]);
    }
    assert(crate::text::strings_view(args@) =~= seq!["copyto"@, source_path@, destination@] + common_arguments(
        config_path@,
    ) + if immutable {
        seq!["--immutable"@]
    } else {
        seq![]
    });
    args
}

/// `copy` of the files a manifest lists (NUL-separated), without traversing the
/// source folder.
pub fn copy_listed_arguments(
    source_path: &str,
    destination: &str,
    manifest_path: &str,
    config_path: &str,
    immutable: bool,
) -> (r: Vec<String>)
    ensures
        crate::text::strings_view(r@) == seq![
            "copy"@,
            source_path@,
            destination@,
            "--files-from0"@,
            manifest_path@,
            "--no-traverse"@,
        ] + common_arguments(config_path@) + if immutable {
            seq!["--immutable"@]
        } else {
            seq![]
        },
{
    let mut args: Vec<String> = Vec::new();
    args.push("copy".to_owned());
    args.push(source_path.to_owned());
    args.push(destination.to_owned());
    args.push("--files-from0".to_owned());
    args.push(manifest_path.to_owned());
    args.push("--no-traverse".to_owned());
    push_common(&mut args, config_path);
    let ghost before = crate::text::strings_view(args@);
    assert(before =~= seq![
        "copy"@,
        source_path@,
        destination@,
        "--files-from0"@,
        manifest_path@,
        "--no-traverse"@,
    ] + common_arguments(config_path@));
    if immutable {
        args.push("--immutable".to_owned());
        assert(crate::text::strings_view(args@) =~= before.push("--immutable"@));
    } else {
        assert(crate::text::strings_view(args@) =~= before + seq![]);
    }
    assert(crate::text::strings_view(args@) =~= seq![
        "copy"@,
        source_path@,
        destination@,
        "--files-from0"@,
        manifest_path@,
        "--no-traverse"@,
    ] + common_arguments(config_path@) + if immutable {
        seq!["--immutable"@]
    } else {
        seq![]
    });
    args
}

/// `mkdir` of one folder.
pub fn mkdir_arguments(target: &str, config_path: &str) -> (r: Vec<String>)
    ensures
        crate::text::strings_view(r@) == seq!["mkdir"@, target@] + common_arguments(config_path@),
{
    let mut args: Vec<String> = Vec::new();
    args.push("mkdir".to_owned());
    args.push(target.to_owned());
    push_common(&mut args, config_path);
    assert(crate::text::strings_view(args@) =~= seq!["mkdir"@, target@] + common_arguments(config_path@));
    args
}

/// The message for a failed upload command, with Rclone's diagnostics.
pub fn upload_failure(stderr: &str) -> (r: String)
    ensures
        r@ == "Local upload failed: "@ + crate::text::trim(stderr@),
{
    let mut m = "Local upload failed: ".to_owned();
    let t = crate::text::trim_str(stderr);
    m.append(t.as_str());
    m
}

} // verus!

verus! {

/// Where the check of a saved entry's path stands.
#[derive(Debug, Clone, Copy, PartialEq, Eq, Structural)]
pub enum PathStage {
    /// Waiting for the root resolved on disk (symbolic links in the root itself are
    /// followed: the configured root may be one).
    Resolving,
    /// Walking down the saved components, each read without following links.
    Walking,
    /// Waiting for what the whole path is now.
    Final,
    Done,
}

/// The check of a saved entry's path on disk: no component below the root may have
/// become a symbolic link, and the entry must still be a folder or a regular file as
/// saved.
#[derive(Debug)]
pub struct PathCheck {
    pub stage: PathStage,
    pub is_directory: bool,
    /// The components below the root.
    pub parts: Vec<String>,
    /// Components walked so far, the last one included in `path`.
    pub walked: usize,
    pub path: String,
}

/// What the filesystem says of a path, links not followed.
#[derive(Debug, Clone, Copy)]
pub struct PathFacts {
    pub is_symlink: bool,
    pub is_dir: bool,
    pub is_file: bool,
}

pub enum PathEvent {
    /// The root resolved on disk, or why it could not be.
    Resolved(Result<String, String>),
    /// What `path` is now, or why it could not be read.
    Inspected(Result<PathFacts, String>),
}

#[derive(Debug)]
pub enum PathAction {
    /// Resolve this root on disk.
    Resolve(String),
    /// Read what this path is, without following a link.
    Inspect(String),
    /// The path on disk, or why the entry cannot be used.
    Finish(Result<String, String>),
}

pub open spec fn path_expects(stage: PathStage, event: PathEvent) -> bool {
    match stage {
        PathStage::Resolving => event is Resolved,
        PathStage::Walking | PathStage::Final => event is Inspected,
        PathStage::Done => false,
    }
}

pub open spec fn path_stopped(r: (PathCheck, PathAction), message: Seq<char>) -> bool {
    &&& r.0.stage == PathStage::Done
    &&& r.1 matches PathAction::Finish(Err(m)) && m@ == message
}

/// The check is consistent: there is a component to walk, and the walked count stays
/// within the components.
pub open spec fn path_check_ok(c: PathCheck) -> bool {
    &&& (c.stage == PathStage::Resolving ==> c.parts@.len() > 0)
    &&& (c.stage != PathStage::Resolving && c.stage != PathStage::Done ==> 0 < c.walked <= c.parts@.len())
}

impl PathCheck {
    /// Starts checking a saved entry: its relative path and root are checked first.
    pub fn start(entry: &Entry) -> (r: (PathCheck, PathAction))
        ensures
            path_check_ok(r.0),
            r.0.is_directory == entry.is_directory,
            match check_entry_result(*entry) {
                Err(m) => path_stopped(r, m),
                Ok(parts) => {
                    &&& r.0.stage == PathStage::Resolving
                    &&& crate::text::strings_view(r.0.parts@) == parts
                    &&& r.1 matches PathAction::Resolve(root) && root@ == entry.root_path@
                },
            },
    {
        match check_entry(entry) {
            Err(m) => (
                PathCheck { stage: PathStage::Done, is_directory: entry.is_directory, parts: Vec::new(), walked: 0, path: String::new() },
                PathAction::Finish(Err(m)),
            ),
            Ok(parts) => {
                proof {
                    crate::text::lemma_split_on_nonempty(entry.relative_path@, '/');
                }
                (
                    PathCheck { stage: PathStage::Resolving, is_directory: entry.is_directory, parts, walked: 0, path: String::new() },
                    PathAction::Resolve(entry.root_path.clone()),
                )
            },
        }
    }
}

/// What `check_entry` decides of a saved entry, as a value.
pub open spec fn check_entry_result(entry: Entry) -> Result<Seq<Seq<char>>, Seq<char>> {
    if !(parts_ok(entry.relative_path@) && !absolute_path(entry.relative_path@)) {
        Err("Invalid indexed local path; update Local Files metadata"@)
    } else if !absolute_path(entry.root_path@) {
        Err("Invalid local migration root"@)
    } else {
        Ok(split_on(entry.relative_path@, '/'))
    }
}

fn path_stop(c: PathCheck, message: String) -> (r: (PathCheck, PathAction))
    ensures
        path_stopped(r, message@),
        path_check_ok(r.0),
        r.0.parts == c.parts && r.0.is_directory == c.is_directory,
{
    let mut c = c;
    c.stage = PathStage::Done;
    (c, PathAction::Finish(Err(message)))
}

impl PathCheck {
    /// The next stage and action after the event the check waits for.
    pub fn step(self, event: PathEvent) -> (r: (PathCheck, PathAction))
        requires
            path_expects(self.stage, event),
            path_check_ok(self),
        ensures
            path_check_ok(r.0),
            r.0.parts@ == self.parts@ && r.0.is_directory == self.is_directory,
            match event {
                PathEvent::Resolved(Err(e)) => path_stopped(r, e@),
                PathEvent::Resolved(Ok(root)) => {
                    &&& r.0.stage == PathStage::Walking
                    &&& r.0.walked == 1
                    &&& r.0.path@ == crate::paths::joined_path(root@, self.parts@[0]@)
                    &&& r.1 matches PathAction::Inspect(p) && p@ == r.0.path@
                },
                PathEvent::Inspected(Err(e)) => path_stopped(r, e@),
                PathEvent::Inspected(Ok(facts)) => if self.stage == PathStage::Walking {
                    if facts.is_symlink {
                        path_stopped(
                            r,
                            "Local source became a symbolic link: "@ + self.path@ + ". Reindex and create a new plan."@,
                        )
                    } else if self.walked < self.parts@.len() {
                        &&& r.0.stage == PathStage::Walking
                        &&& r.0.walked == self.walked + 1
                        &&& r.0.path@ == crate::paths::joined_path(self.path@, self.parts@[self.walked as int]@)
                        &&& r.1 matches PathAction::Inspect(p) && p@ == r.0.path@
                    } else {
                        &&& r.0.stage == PathStage::Final
                        &&& r.0.path@ == self.path@
                        &&& r.1 matches PathAction::Inspect(p) && p@ == self.path@
                    }
                } else if facts.is_dir != self.is_directory || (!self.is_directory && !facts.is_file) {
                    path_stopped(r, "Local source changed type: "@ + self.path@ + ". Reindex and create a new plan."@)
                } else {
                    &&& r.0.stage == PathStage::Done
                    &&& r.1 matches PathAction::Finish(Ok(p)) && p@ == self.path@
                },
            },
    {
        let mut c = self;
        match event {
            PathEvent::Resolved(Err(e)) => path_stop(c, e),
            PathEvent::Resolved(Ok(root)) => {
                let path = crate::paths::join_path(root.as_str(), c.parts[0].as_str());
                c.path = path.clone();
                c.walked = 1;
                c.stage = PathStage::Walking;
                (c, PathAction::Inspect(path))
            },
            PathEvent::Inspected(Err(e)) => path_stop(c, e),
            PathEvent::Inspected(Ok(facts)) => {
                if c.stage == PathStage::Walking {
                    if facts.is_symlink {
                        let m = symlink_error(c.path.as_str());
                        return path_stop(c, m);
                    }
                    if c.walked < c.parts.len() {
                        let path = crate::paths::join_path(c.path.as_str(), c.parts[c.walked].as_str());
                        c.path = path.clone();
                        c.walked = c.walked + 1;
                        return (c, PathAction::Inspect(path));
                    }
                    c.stage = PathStage::Final;
                    let path = c.path.clone();
                    return (c, PathAction::Inspect(path));
                }
                match check_type(c.is_directory, facts.is_dir, facts.is_file, c.path.as_str()) {
                    Err(m) => path_stop(c, m),
                    Ok(()) => {
                        c.stage = PathStage::Done;
                        let path = c.path.clone();
                        (c, PathAction::Finish(Ok(path)))
                    },
                }
            },
        }
    }
}

} // verus!
