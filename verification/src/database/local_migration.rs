//! Local Files migrations: freezing the indexed selection that a job uploads.
use vstd::prelude::*;
use crate::order::{insert_by, sort_by, lemma_insert_by_at};
use crate::paths::{absolute_path, components_of, components_view, is_absolute_path, join_path, joined_path, path_components, same_components};
use crate::text::{chars_of, seq_lt, split_chars, split_on, str_eq, string_lt, strings_view};

verus! {

/// An indexed entry of a migration's saved file list.
#[derive(Debug, Clone)]
pub struct Entry {
    pub root_path: String,
    pub relative_path: String,
    pub is_directory: bool,
}

/// An indexed entry chosen for migration.
#[derive(Debug, Clone)]
pub struct Selection {
    pub id: i64,
    pub root: String,
    pub path: String,
    pub name: String,
    pub directory: bool,
}

/// A relative path as the index stores it: not empty, no NUL or `\`, and `/`-separated
/// parts that are neither empty, `.` nor `..`.
pub open spec fn parts_ok(path: Seq<char>) -> bool {
    path.len() > 0 && !path.contains('\0') && !path.contains('\\') && forall|i: int|
        0 <= i < split_on(path, '/').len() ==> {
            let part = #[trigger] split_on(path, '/')[i];
            part.len() > 0 && part != "."@ && part != ".."@
        }
}

/// The check of an indexed relative path, given whether the platform reads it as
/// absolute.
pub fn relative_path_ok(path: &str, absolute: bool) -> (r: Result<(), &'static str>)
    ensures
        r is Ok <==> (parts_ok(path@) && !absolute),
        r matches Err(m) ==> m@ == "Invalid indexed local path; update Local Files metadata"@,
{
    let v = chars_of(path);
    let mut ok = v.len() > 0 && !absolute;
    let mut i: usize = 0;
    while i < v.len()
        invariant
            i <= v@.len(),
            v@ == path@,
            ok == (v@.len() > 0 && !absolute && forall|k: int| 0 <= k < i ==> #[trigger] v@[k] != '\0' && v@[k] != '\\'),
        decreases v.len() - i,
    {
        if v[i] == '\0' || v[i] == '\\' {
            ok = false;
        }
        i = i + 1;
    }
    proof {
        if path@.contains('\0') {
            let k = choose|k: int| 0 <= k < path@.len() && path@[k] == '\0';
            assert(v@[k] == '\0');
        }
        if path@.contains('\\') {
            let k = choose|k: int| 0 <= k < path@.len() && path@[k] == '\\';
            assert(v@[k] == '\\');
        }
        if ok {
            assert forall|k: int| 0 <= k < path@.len() implies path@[k] != '\0' && path@[k] != '\\' by {
                assert(v@[k] != '\0' && v@[k] != '\\');
            }
        }
    }
    let parts = split_chars(&v, '/');
    let mut j: usize = 0;
    while j < parts.len()
        invariant
            j <= parts@.len(),
            parts.deep_view() == split_on(path@, '/'),
            ok ==> forall|k: int| 0 <= k < j ==> {
                let part = #[trigger] split_on(path@, '/')[k];
                part.len() > 0 && part != "."@ && part != ".."@
            },
            !ok ==> !(parts_ok(path@) && !absolute),
            ok ==> v@.len() > 0 && !absolute && !path@.contains('\0') && !path@.contains('\\'),
            v@ == path@,
        decreases parts.len() - j,
    {
        assert(parts@[j as int]@ == parts.deep_view()[j as int]);
        let p = &parts[j];
        let text = crate::text::string_from_chars(p.as_slice());
        if p.len() == 0 || str_eq(text.as_str(), ".") || str_eq(text.as_str(), "..") {
            ok = false;
        }
        j = j + 1;
    }
    if ok {
        Ok(())
    } else {
        Err("Invalid indexed local path; update Local Files metadata")
    }
}

/// Checks an indexed relative path before files are read or copied by it.
pub fn validate_relative(path: &str) -> (r: Result<(), &'static str>)
    ensures
        r is Ok <==> (parts_ok(path@) && !absolute_path(path@)),
        r matches Err(m) ==> m@ == "Invalid indexed local path; update Local Files metadata"@,
{
    let absolute = is_absolute_path(path);
    relative_path_ok(path, absolute)
}

} // verus!

verus! {

pub struct SelectionView {
    pub id: i64,
    pub root: Seq<char>,
    pub path: Seq<char>,
    pub name: Seq<char>,
    pub directory: bool,
}

impl View for Selection {
    type V = SelectionView;

    open spec fn view(&self) -> SelectionView {
        SelectionView {
            id: self.id,
            root: self.root@,
            path: self.path@,
            name: self.name@,
            directory: self.directory,
        }
    }
}

impl Selection {
    pub fn duplicate(&self) -> (r: Selection)
        ensures
            r@ == self@,
    {
        Selection {
            id: self.id,
            root: self.root.clone(),
            path: self.path.clone(),
            name: self.name.clone(),
            directory: self.directory,
        }
    }
}

pub open spec fn component_lt(a: (u8, Seq<char>), b: (u8, Seq<char>)) -> bool {
    a.0 < b.0 || (a.0 == b.0 && seq_lt(a.1, b.1))
}

/// Path order: component by component.
pub open spec fn path_lt(a: Seq<(u8, Seq<char>)>, b: Seq<(u8, Seq<char>)>) -> bool
    decreases a.len(),
{
    if a.len() == 0 {
        b.len() > 0
    } else if b.len() == 0 {
        false
    } else if a[0] != b[0] {
        component_lt(a[0], b[0])
    } else {
        path_lt(a.drop_first(), b.drop_first())
    }
}

/// Selections are taken in path order.
pub open spec fn selection_order() -> spec_fn((SelectionView, Seq<(u8, Seq<char>)>), (SelectionView, Seq<(u8, Seq<char>)>)) -> bool {
    |x: (SelectionView, Seq<(u8, Seq<char>)>), y: (SelectionView, Seq<(u8, Seq<char>)>)| path_lt(x.1, y.1)
}

/// A source name that can stand alone at the destination.
pub open spec fn name_ok(name: Seq<char>) -> bool {
    name.len() > 0 && name != "."@ && name != ".."@ && !name.contains('/') && !name.contains('\\')
        && !name.contains('\0')
}

/// Whether `key` lies below one of `dirs` (a proper ancestor of it is one of them).
pub open spec fn below_any(dirs: Seq<Seq<(u8, Seq<char>)>>, key: Seq<(u8, Seq<char>)>) -> bool {
    exists|j: int| 0 < j < key.len() && dirs.contains(#[trigger] key.take(j))
}

/// The top-level selections, in path order: an entry already selected, or inside a
/// selected folder, is covered by it. Returns the kept entries, their paths and the
/// folders among them.
pub open spec fn top_level(sorted: Seq<(SelectionView, Seq<(u8, Seq<char>)>)>) -> (
    Seq<(SelectionView, Seq<(u8, Seq<char>)>)>,
    Seq<Seq<(u8, Seq<char>)>>,
    Seq<Seq<(u8, Seq<char>)>>,
)
    decreases sorted.len(),
{
    if sorted.len() == 0 {
        (seq![], seq![], seq![])
    } else {
        let (kept, paths, dirs) = top_level(sorted.drop_last());
        let x = sorted.last();
        if paths.contains(x.1) || below_any(dirs, x.1) {
            (kept, paths, dirs)
        } else {
            (
                kept.push(x),
                paths.push(x.1),
                if x.0.directory {
                    dirs.push(x.1)
                } else {
                    dirs
                },
            )
        }
    }
}

/// The first name that two top-level selections share.
pub open spec fn repeated_name(kept: Seq<SelectionView>, n: int) -> Option<Seq<char>>
    decreases n,
{
    if n <= 0 {
        None
    } else {
        match repeated_name(kept, n - 1) {
            Some(x) => Some(x),
            None => if kept.take(n - 1).map_values(|s: SelectionView| s.name).contains(kept[n - 1].name) {
                Some(kept[n - 1].name)
            } else {
                None
            },
        }
    }
}

} // verus!

verus! {

pub open spec fn found_view(found: Seq<Option<(Selection, bool)>>) -> Seq<Option<(SelectionView, bool)>> {
    found.map_values(
        |o: Option<(Selection, bool)>|
            match o {
                Some((s, link)) => Some((s@, link)),
                None => None,
            },
    )
}

pub open spec fn keys_view(keys: Seq<Vec<(u8, String)>>) -> Seq<Seq<(u8, Seq<char>)>> {
    keys.map_values(|k: Vec<(u8, String)>| components_view(k@))
}

pub open spec fn candidates_view(c: Seq<(Selection, Vec<(u8, String)>)>) -> Seq<(SelectionView, Seq<(u8, Seq<char>)>)> {
    c.map_values(|x: (Selection, Vec<(u8, String)>)| (x.0@, components_view(x.1@)))
}

/// The first problem with the selected entries, checked in order, each id once: no
/// longer indexed, root no longer configured, a symbolic link, an invalid relative
/// path (`absolute`: the platform reads it as absolute), or an invalid name.
pub open spec fn entry_problem(
    ids: Seq<i64>,
    found: Seq<Option<(SelectionView, bool)>>,
    root_known: Seq<bool>,
    absolute: Seq<bool>,
    n: int,
) -> Option<Seq<char>>
    decreases n,
{
    if n <= 0 {
        None
    } else {
        match entry_problem(ids, found, root_known, absolute, n - 1) {
            Some(m) => Some(m),
            None => {
                let k = n - 1;
                if ids.take(k).contains(ids[k]) {
                    None
                } else {
                    match found[k] {
                        None => Some("A selected local entry is no longer indexed. Refresh the explorer."@),
                        Some((s, link)) => if !root_known[k] {
                            Some("A selected root is no longer configured. Refresh the explorer."@)
                        } else if link {
                            Some("Symbolic links cannot be migrated. Select the original indexed files instead."@)
                        } else if !(parts_ok(s.path) && !absolute[k]) {
                            Some("Invalid indexed local path; update Local Files metadata"@)
                        } else if !name_ok(s.name) {
                            Some("Invalid local source name"@)
                        } else {
                            None
                        },
                    }
                }
            },
        }
    }
}

/// The selected entries with their paths, in selection order, each id once.
pub open spec fn candidates(
    ids: Seq<i64>,
    found: Seq<Option<(SelectionView, bool)>>,
    keys: Seq<Seq<(u8, Seq<char>)>>,
    n: int,
) -> Seq<(SelectionView, Seq<(u8, Seq<char>)>)>
    decreases n,
{
    if n <= 0 {
        seq![]
    } else {
        let prev = candidates(ids, found, keys, n - 1);
        let k = n - 1;
        if ids.take(k).contains(ids[k]) {
            prev
        } else {
            match found[k] {
                Some((s, _)) => prev.push((s, keys[k])),
                None => prev,
            }
        }
    }
}

/// The sources of a new Local Files migration: the selected entries checked, then the
/// top-level ones in path order, which must have distinct names.
pub open spec fn migration_plan(
    ids: Seq<i64>,
    found: Seq<Option<(SelectionView, bool)>>,
    root_known: Seq<bool>,
    absolute: Seq<bool>,
    keys: Seq<Seq<(u8, Seq<char>)>>,
) -> Result<Seq<SelectionView>, Seq<char>> {
    if ids.len() == 0 {
        Err("Select at least one local file or folder"@)
    } else {
        match entry_problem(ids, found, root_known, absolute, ids.len() as int) {
            Some(m) => Err(m),
            None => {
                let kept = top_level(sort_by(candidates(ids, found, keys, ids.len() as int), selection_order())).0.map_values(
                    |x: (SelectionView, Seq<(u8, Seq<char>)>)| x.0,
                );
                match repeated_name(kept, kept.len() as int) {
                    Some(name) => Err(
                        "Multiple selected items are named '"@ + name
                            + "'. Migrate them separately or select their parent folders."@,
                    ),
                    None => Ok(kept),
                }
            },
        }
    }
}

fn seen_before(ids: &Vec<i64>, k: usize) -> (r: bool)
    requires
        k < ids@.len(),
    ensures
        r == ids@.take(k as int).contains(ids@[k as int]),
{
    let mut i: usize = 0;
    while i < k
        invariant
            i <= k < ids@.len(),
            forall|m: int| 0 <= m < i ==> ids@[m] != ids@[k as int],
        decreases k - i,
    {
        if ids[i] == ids[k] {
            assert(ids@.take(k as int)[i as int] == ids@[k as int]);
            return true;
        }
        i = i + 1;
    }
    proof {
        if ids@.take(k as int).contains(ids@[k as int]) {
            let m = choose|m: int| 0 <= m < k && ids@.take(k as int)[m] == ids@[k as int];
            assert(ids@[m] == ids@[k as int]);
        }
    }
    false
}

fn name_ok_of(name: &str) -> (r: bool)
    ensures
        r == name_ok(name@),
{
    if name.is_empty() || str_eq(name, ".") || str_eq(name, "..") {
        return false;
    }
    let v = chars_of(name);
    let mut i: usize = 0;
    while i < v.len()
        invariant
            i <= v@.len(),
            v@ == name@,
            forall|k: int| 0 <= k < i ==> #[trigger] v@[k] != '/' && v@[k] != '\\' && v@[k] != '\0',
        decreases v.len() - i,
    {
        if v[i] == '/' || v[i] == '\\' || v[i] == '\0' {
            assert(name@[i as int] == v[i as int]);
            return false;
        }
        i = i + 1;
    }
    proof {
        if name@.contains('/') || name@.contains('\\') || name@.contains('\0') {
            let k = choose|k: int| 0 <= k < name@.len() && (name@[k] == '/' || name@[k] == '\\' || name@[k] == '\0');
            assert(v@[k] == name@[k]);
        }
    }
    true
}

fn clone_key(k: &Vec<(u8, String)>) -> (r: Vec<(u8, String)>)
    ensures
        components_view(r@) == components_view(k@),
{
    let mut r: Vec<(u8, String)> = Vec::new();
    let mut i: usize = 0;
    while i < k.len()
        invariant
            i <= k@.len(),
            r@.len() == i,
            forall|m: int| 0 <= m < i ==> (#[trigger] r@[m]).0 == k@[m].0 && r@[m].1@ == k@[m].1@,
        decreases k.len() - i,
    {
        r.push((k[i].0, k[i].1.clone()));
        i = i + 1;
    }
    assert(components_view(r@) =~= components_view(k@));
    r
}

fn path_before(a: &Vec<(u8, String)>, b: &Vec<(u8, String)>) -> (r: bool)
    ensures
        r == path_lt(components_view(a@), components_view(b@)),
{
    let ghost av = components_view(a@);
    let ghost bv = components_view(b@);
    let mut i: usize = 0;
    assert(av.skip(0) == av && bv.skip(0) == bv);
    while i < a.len() && i < b.len()
        invariant
            av == components_view(a@),
            bv == components_view(b@),
            i <= a@.len(),
            i <= b@.len(),
            path_lt(av, bv) == path_lt(av.skip(i as int), bv.skip(i as int)),
        decreases a.len() - i,
    {
        let same = a[i].0 == b[i].0 && a[i].1 == b[i].1;
        proof {
            assert(av.skip(i as int)[0] == av[i as int]);
            assert(bv.skip(i as int)[0] == bv[i as int]);
            assert(av.skip(i as int).drop_first() == av.skip(i + 1));
            assert(bv.skip(i as int).drop_first() == bv.skip(i + 1));
        }
        if !same {
            return a[i].0 < b[i].0 || (a[i].0 == b[i].0 && string_lt(a[i].1.as_str(), b[i].1.as_str()));
        }
        i = i + 1;
    }
    i == a.len() && i < b.len()
}

fn listed_path(paths: &Vec<Vec<(u8, String)>>, key: &Vec<(u8, String)>, n: usize) -> (r: bool)
    requires
        n <= key@.len(),
    ensures
        r == keys_view(paths@).contains(components_view(key@).take(n as int)),
{
    let ghost pv = keys_view(paths@);
    let mut i: usize = 0;
    while i < paths.len()
        invariant
            i <= paths@.len(),
            n <= key@.len(),
            pv == keys_view(paths@),
            forall|m: int| 0 <= m < i ==> pv[m] != components_view(key@).take(n as int),
        decreases paths.len() - i,
    {
        assert(pv[i as int] == components_view(paths@[i as int]@));
        if same_components(key, &paths[i], n) {
            return true;
        }
        i = i + 1;
    }
    false
}

fn inside_selected(dirs: &Vec<Vec<(u8, String)>>, key: &Vec<(u8, String)>) -> (r: bool)
    ensures
        r == below_any(keys_view(dirs@), components_view(key@)),
{
    let mut j: usize = 1;
    while j < key.len()
        invariant
            1 <= j,
            forall|m: int| 0 < m < j && m < key@.len() ==> !keys_view(dirs@).contains(#[trigger] components_view(key@).take(m)),
        decreases key.len() - j,
    {
        if listed_path(dirs, key, j) {
            return true;
        }
        j = j + 1;
    }
    false
}

} // verus!

verus! {

fn insert_candidate(s: &mut Vec<(Selection, Vec<(u8, String)>)>, x: (Selection, Vec<(u8, String)>))
    ensures
        candidates_view(final(s)@) == insert_by(candidates_view(old(s)@), (x.0@, components_view(x.1@)), selection_order()),
{
    let ghost sv = candidates_view(s@);
    let ghost xv = (x.0@, components_view(x.1@));
    let mut j: usize = s.len();
    while j > 0 && path_before(&x.1, &s[j - 1].1)
        invariant
            j <= s@.len(),
            sv == candidates_view(s@),
            xv == (x.0@, components_view(x.1@)),
            forall|k: int| j <= k < sv.len() ==> (selection_order())(xv, #[trigger] sv[k]),
        decreases j,
    {
        j = j - 1;
    }
    proof {
        if j > 0 {
            assert(sv[j - 1] == (s@[j - 1].0@, components_view(s@[j - 1].1@)));
        }
        lemma_insert_by_at(sv, xv, selection_order(), j as int);
    }
    s.insert(j, x);
    assert(candidates_view(s@) =~= sv.take(j as int) + seq![xv] + sv.skip(j as int));
}

fn checked_candidates(
    ids: &Vec<i64>,
    found: &Vec<Option<(Selection, bool)>>,
    root_known: &Vec<bool>,
    absolute: &Vec<bool>,
    keys: &Vec<Vec<(u8, String)>>,
) -> (r: Result<Vec<(Selection, Vec<(u8, String)>)>, String>)
    requires
        found@.len() == ids@.len(),
        root_known@.len() == ids@.len(),
        absolute@.len() == ids@.len(),
        keys@.len() == ids@.len(),
    ensures
        match entry_problem(ids@, found_view(found@), root_known@, absolute@, ids@.len() as int) {
            Some(m) => r matches Err(e) && e@ == m,
            None => r matches Ok(v) && candidates_view(v@) == sort_by(
                candidates(ids@, found_view(found@), keys_view(keys@), ids@.len() as int),
                selection_order(),
            ),
        },
{
    let ghost fv = found_view(found@);
    let ghost kv = keys_view(keys@);
    let mut sorted: Vec<(Selection, Vec<(u8, String)>)> = Vec::new();
    let mut k: usize = 0;
    while k < ids.len()
        invariant
            k <= ids@.len(),
            found@.len() == ids@.len(),
            root_known@.len() == ids@.len(),
            absolute@.len() == ids@.len(),
            keys@.len() == ids@.len(),
            fv == found_view(found@),
            kv == keys_view(keys@),
            entry_problem(ids@, fv, root_known@, absolute@, k as int) is None,
            candidates_view(sorted@) == sort_by(candidates(ids@, fv, kv, k as int), selection_order()),
        decreases ids.len() - k,
    {
        if !seen_before(ids, k) {
            match &found[k] {
                None => {
                    proof {
                        lemma_entry_problem_stops(ids@, fv, root_known@, absolute@, k as int, ids@.len() as int);
                    }
                    return Err("A selected local entry is no longer indexed. Refresh the explorer.".to_owned());
                },
                Some((s, link)) => {
                    let problem: Option<&'static str> = if !root_known[k] {
                        Some("A selected root is no longer configured. Refresh the explorer.")
                    } else if *link {
                        Some("Symbolic links cannot be migrated. Select the original indexed files instead.")
                    } else if relative_path_ok(s.path.as_str(), absolute[k]).is_err() {
                        Some("Invalid indexed local path; update Local Files metadata")
                    } else if !name_ok_of(s.name.as_str()) {
                        Some("Invalid local source name")
                    } else {
                        None
                    };
                    match problem {
                        Some(m) => {
                            proof {
                                lemma_entry_problem_stops(ids@, fv, root_known@, absolute@, k as int, ids@.len() as int);
                            }
                            return Err(m.to_owned());
                        },
                        None => {
                            let c = (s.duplicate(), clone_key(&keys[k]));
                            proof {
                                let prev = candidates(ids@, fv, kv, k as int);
                                assert(candidates(ids@, fv, kv, k + 1) == prev.push((s@, kv[k as int])));
                                assert(prev.push((s@, kv[k as int])).drop_last() == prev);
                            }
                            insert_candidate(&mut sorted, c);
                        },
                    }
                },
            }
        }
        k = k + 1;
    }
    Ok(sorted)
}

proof fn lemma_entry_problem_stops(
    ids: Seq<i64>,
    found: Seq<Option<(SelectionView, bool)>>,
    root_known: Seq<bool>,
    absolute: Seq<bool>,
    k: int,
    n: int,
)
    requires
        0 <= k < n,
        entry_problem(ids, found, root_known, absolute, k) is None,
        entry_problem(ids, found, root_known, absolute, k + 1) is Some,
    ensures
        entry_problem(ids, found, root_known, absolute, n) == entry_problem(ids, found, root_known, absolute, k + 1),
    decreases n - k,
{
    if n > k + 1 {
        lemma_entry_problem_stops(ids, found, root_known, absolute, k, n - 1);
    }
}

} // verus!

verus! {

pub open spec fn selections_view(s: Seq<Selection>) -> Seq<SelectionView> {
    s.map_values(|x: Selection| x@)
}

pub open spec fn kept_selections(t: Seq<(SelectionView, Seq<(u8, Seq<char>)>)>) -> Seq<SelectionView> {
    t.map_values(|x: (SelectionView, Seq<(u8, Seq<char>)>)| x.0)
}

/// The top-level selections of the sorted candidates.
fn top_selections(sorted: &Vec<(Selection, Vec<(u8, String)>)>) -> (r: Vec<Selection>)
    ensures
        selections_view(r@) == kept_selections(top_level(candidates_view(sorted@)).0),
{
    let ghost cv = candidates_view(sorted@);
    let mut kept: Vec<Selection> = Vec::new();
    let mut paths: Vec<Vec<(u8, String)>> = Vec::new();
    let mut dirs: Vec<Vec<(u8, String)>> = Vec::new();
    let mut i: usize = 0;
    while i < sorted.len()
        invariant
            i <= sorted@.len(),
            cv == candidates_view(sorted@),
            selections_view(kept@) == kept_selections(top_level(cv.take(i as int)).0),
            keys_view(paths@) == top_level(cv.take(i as int)).1,
            keys_view(dirs@) == top_level(cv.take(i as int)).2,
        decreases sorted.len() - i,
    {
        let ghost t = cv.take(i + 1);
        let ghost prev = top_level(cv.take(i as int));
        proof {
            assert(t.drop_last() =~= cv.take(i as int));
            assert(t.last() == cv[i as int]);
            assert(cv[i as int] == (sorted@[i as int].0@, components_view(sorted@[i as int].1@)));
        }
        let key = &sorted[i].1;
        let n = key.len();
        proof {
            assert(components_view(key@).take(n as int) =~= components_view(key@));
        }
        let covered = listed_path(&paths, key, n) || inside_selected(&dirs, key);
        if !covered {
            let ghost before_kept = selections_view(kept@);
            let ghost before_paths = keys_view(paths@);
            let ghost before_dirs = keys_view(dirs@);
            kept.push(sorted[i].0.duplicate());
            paths.push(clone_key(key));
            if sorted[i].0.directory {
                dirs.push(clone_key(key));
                assert(keys_view(dirs@) =~= before_dirs.push(components_view(key@)));
            }
            assert(selections_view(kept@) =~= before_kept.push(sorted@[i as int].0@));
            assert(keys_view(paths@) =~= before_paths.push(components_view(key@)));
            assert(kept_selections(top_level(t).0) =~= kept_selections(prev.0).push(cv[i as int].0));
        }
        i = i + 1;
    }
    assert(cv.take(cv.len() as int) =~= cv);
    kept
}

proof fn lemma_repeated_name_stops(kept: Seq<SelectionView>, k: int, n: int)
    requires
        0 <= k < n,
        repeated_name(kept, k) is None,
        repeated_name(kept, k + 1) is Some,
    ensures
        repeated_name(kept, n) == repeated_name(kept, k + 1),
    decreases n - k,
{
    if n > k + 1 {
        lemma_repeated_name_stops(kept, k, n - 1);
    }
}

/// The first name that two of the selections share.
fn first_repeated(kept: &Vec<Selection>) -> (r: Option<String>)
    ensures
        match repeated_name(selections_view(kept@), kept@.len() as int) {
            Some(n) => r matches Some(s) && s@ == n,
            None => r is None,
        },
{
    let ghost kv = selections_view(kept@);
    let mut i: usize = 0;
    while i < kept.len()
        invariant
            i <= kept@.len(),
            kv == selections_view(kept@),
            repeated_name(kv, i as int) is None,
        decreases kept.len() - i,
    {
        let mut dup = false;
        let mut j: usize = 0;
        while j < i
            invariant
                j <= i < kept@.len(),
                kv == selections_view(kept@),
                dup == exists|m: int| 0 <= m < j && (#[trigger] kv[m]).name == kv[i as int].name,
            decreases i - j,
        {
            assert(kv[j as int] == kept@[j as int]@);
            assert(kv[i as int] == kept@[i as int]@);
            if str_eq(kept[j].name.as_str(), kept[i].name.as_str()) {
                dup = true;
            }
            j = j + 1;
        }
        proof {
            let names = kv.take(i as int).map_values(|s: SelectionView| s.name);
            if dup {
                let m = choose|m: int| 0 <= m < i && (#[trigger] kv[m]).name == kv[i as int].name;
                assert(names[m] == kv[m].name);
            }
            if names.contains(kv[i as int].name) {
                let m = choose|m: int| 0 <= m < names.len() && names[m] == kv[i as int].name;
                assert(kv[m].name == names[m]);
            }
        }
        if dup {
            proof {
                lemma_repeated_name_stops(kv, i as int, kv.len() as int);
            }
            assert(kv[i as int] == kept@[i as int]@);
            return Some(kept[i].name.clone());
        }
        i = i + 1;
    }
    None
}

/// The sources of a new Local Files migration, given what the index holds for each
/// selected id (the entry and whether it is a symbolic link), whether its root is
/// still configured, whether the platform reads its relative path as absolute, and
/// the components of its full path.
pub fn plan_sources(
    ids: &Vec<i64>,
    found: &Vec<Option<(Selection, bool)>>,
    root_known: &Vec<bool>,
    absolute: &Vec<bool>,
    keys: &Vec<Vec<(u8, String)>>,
) -> (r: Result<Vec<Selection>, String>)
    requires
        found@.len() == ids@.len(),
        root_known@.len() == ids@.len(),
        absolute@.len() == ids@.len(),
        keys@.len() == ids@.len(),
    ensures
        match migration_plan(ids@, found_view(found@), root_known@, absolute@, keys_view(keys@)) {
            Ok(v) => r matches Ok(s) && selections_view(s@) == v,
            Err(m) => r matches Err(e) && e@ == m,
        },
{
    if ids.len() == 0 {
        return Err("Select at least one local file or folder".to_owned());
    }
    let sorted = match checked_candidates(ids, found, root_known, absolute, keys) {
        Ok(v) => v,
        Err(e) => {
            return Err(e);
        },
    };
    let kept = top_selections(&sorted);
    match first_repeated(&kept) {
        Some(name) => {
            let mut m = "Multiple selected items are named '".to_owned();
            m.append(name.as_str());
            m.append("'. Migrate them separately or select their parent folders.");
            Err(m)
        },
        None => Ok(kept),
    }
}

impl Selection {
    /// The entry's full path: its root joined with its relative path.
    pub fn full_path(&self) -> (r: String)
        ensures
            r@ == joined_path(self.root@, self.path@),
    {
        join_path(self.root.as_str(), self.path.as_str())
    }
}

/// For each selected id, whether its root is one of the configured folders.
pub open spec fn known_roots(found: Seq<Option<(SelectionView, bool)>>, roots: Seq<Seq<char>>) -> Seq<bool> {
    Seq::new(
        found.len(),
        |k: int|
            match found[k] {
                Some((s, _)) => exists|j: int|
                    0 <= j < roots.len() && components_of(#[trigger] roots[j]) == components_of(s.root),
                None => false,
            },
    )
}

/// For each selected id, whether the platform reads its relative path as absolute.
pub open spec fn absolute_paths(found: Seq<Option<(SelectionView, bool)>>) -> Seq<bool> {
    Seq::new(
        found.len(),
        |k: int|
            match found[k] {
                Some((s, _)) => absolute_path(s.path),
                None => false,
            },
    )
}

/// For each selected id, the components of its full path.
pub open spec fn full_paths(found: Seq<Option<(SelectionView, bool)>>) -> Seq<Seq<(u8, Seq<char>)>> {
    Seq::new(
        found.len(),
        |k: int|
            match found[k] {
                Some((s, _)) => components_of(joined_path(s.root, s.path)),
                None => seq![],
            },
    )
}

/// The sources of a new Local Files migration from the selected ids, what the index
/// holds for each, and the configured folders (with `~` already expanded).
pub fn select_sources(ids: &Vec<i64>, found: &Vec<Option<(Selection, bool)>>, roots: &Vec<String>) -> (r: Result<
    Vec<Selection>,
    String,
>)
    requires
        found@.len() == ids@.len(),
    ensures
        match migration_plan(
            ids@,
            found_view(found@),
            known_roots(found_view(found@), crate::text::strings_view(roots@)),
            absolute_paths(found_view(found@)),
            full_paths(found_view(found@)),
        ) {
            Ok(v) => r matches Ok(s) && selections_view(s@) == v,
            Err(m) => r matches Err(e) && e@ == m,
        },
{
    let ghost fv = found_view(found@);
    let ghost rv = crate::text::strings_view(roots@);
    let mut root_known: Vec<bool> = Vec::new();
    let mut absolute: Vec<bool> = Vec::new();
    let mut keys: Vec<Vec<(u8, String)>> = Vec::new();
    let mut k: usize = 0;
    while k < found.len()
        invariant
            k <= found@.len(),
            fv == found_view(found@),
            rv == crate::text::strings_view(roots@),
            root_known@ == known_roots(fv, rv).take(k as int),
            absolute@ == absolute_paths(fv).take(k as int),
            keys_view(keys@) == full_paths(fv).take(k as int),
        decreases found.len() - k,
    {
        let ghost before = keys_view(keys@);
        match &found[k] {
            Some((s, link)) => {
                assert(fv[k as int] == Some((s@, *link)));
                let mut known = false;
                let mut j: usize = 0;
                while j < roots.len()
                    invariant
                        j <= roots@.len(),
                        rv == crate::text::strings_view(roots@),
                        known == exists|m: int| 0 <= m < j && components_of(#[trigger] rv[m]) == components_of(s.root@),
                    decreases roots.len() - j,
                {
                    assert(rv[j as int] == roots@[j as int]@);
                    if crate::paths::same_path(roots[j].as_str(), s.root.as_str()) {
                        known = true;
                    }
                    j = j + 1;
                }
                root_known.push(known);
                absolute.push(is_absolute_path(s.path.as_str()));
                let full = s.full_path();
                keys.push(path_components(full.as_str()));
                assert(keys_view(keys@) =~= before.push(full_paths(fv)[k as int]));
            },
            None => {
                root_known.push(false);
                absolute.push(false);
                let empty: Vec<(u8, String)> = Vec::new();
                assert(components_view(empty@) =~= seq![]);
                keys.push(empty);
                assert(keys_view(keys@) =~= before.push(full_paths(fv)[k as int]));
            },
        }
        assert(root_known@ =~= known_roots(fv, rv).take(k + 1));
        assert(absolute@ =~= absolute_paths(fv).take(k + 1));
        assert(keys_view(keys@) =~= full_paths(fv).take(k + 1));
        k = k + 1;
    }
    assert(root_known@ =~= known_roots(fv, rv));
    assert(absolute@ =~= absolute_paths(fv));
    assert(keys_view(keys@) =~= full_paths(fv));
    plan_sources(ids, found, &root_known, &absolute, &keys)
}

} // verus!

verus! {

proof fn lemma_no_repeated_name(kept: Seq<SelectionView>, n: int)
    requires
        0 <= n <= kept.len(),
        repeated_name(kept, n) is None,
    ensures
        forall|i: int, j: int| 0 <= i < j < n ==> (#[trigger] kept[i]).name != (#[trigger] kept[j]).name,
    decreases n,
{
    if n > 0 {
        lemma_no_repeated_name(kept, n - 1);
        let names = kept.take(n - 1).map_values(|s: SelectionView| s.name);
        assert forall|i: int| 0 <= i < n - 1 implies (#[trigger] kept[i]).name != kept[n - 1].name by {
            assert(names[i] == kept[i].name);
        }
    }
}

/// The sources of a migration never share a top-level name, so none overwrites another
/// at the destination.
pub proof fn law_planned_sources_have_distinct_names(
    ids: Seq<i64>,
    found: Seq<Option<(SelectionView, bool)>>,
    root_known: Seq<bool>,
    absolute: Seq<bool>,
    keys: Seq<Seq<(u8, Seq<char>)>>,
)
    ensures
        migration_plan(ids, found, root_known, absolute, keys) matches Ok(v) ==> forall|i: int, j: int|
            0 <= i < j < v.len() ==> (#[trigger] v[i]).name != (#[trigger] v[j]).name,
{
    if ids.len() > 0 && entry_problem(ids, found, root_known, absolute, ids.len() as int) is None {
        let kept = kept_selections(top_level(sort_by(candidates(ids, found, keys, ids.len() as int), selection_order())).0);
        if repeated_name(kept, kept.len() as int) is None {
            lemma_no_repeated_name(kept, kept.len() as int);
        }
    }
}

} // verus!
