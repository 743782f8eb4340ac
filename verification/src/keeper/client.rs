//! Keeper Commander: where its executable and Python are found, the metadata reports it
//! runs, the snapshot they describe and its validation.
use vstd::prelude::*;
use crate::paths::{join_path, joined_path};
use crate::text::{chars_of, listed, starts_with, str_eq, strings_view, strip_prefix_str, trim, trim_str};

verus! {

/// A folder of the vault, with its sharing grants.
#[derive(Debug, Clone)]
pub struct SharedFolder {
    pub folder_uid: String,
    pub parent_uid: String,
    pub name: String,
    pub folder_type: String,
    pub folder_path: String,
    pub access: Vec<FolderAccess>,
}

/// One sharing grant of a folder.
#[derive(Debug, Clone)]
pub struct FolderAccess {
    pub shared_to: String,
    pub permissions: String,
    pub target_kind: String,
}

/// The metadata-only report of a vault.
#[derive(Debug, Clone)]
pub struct VaultSnapshot {
    pub schema_version: u32,
    pub folders: Vec<SharedFolder>,
    pub records: Vec<Record>,
    pub memberships: Vec<Membership>,
}

/// A record's metadata.
#[derive(Debug, Clone)]
pub struct Record {
    pub record_uid: String,
    pub title: String,
    pub record_type: String,
    pub modified_ms: i64,
    pub version: u32,
    pub attachment_count: u32,
    pub size_bytes: i64,
}

/// A record placed in a folder.
#[derive(Debug, Clone)]
pub struct Membership {
    pub folder_uid: String,
    pub record_uid: String,
}

/// Why a metadata report is refused.
#[derive(Debug, Clone, Copy, PartialEq, Eq)]
pub enum SnapshotError {
    InvalidIdentifier,
    MissingMemberships,
    Incomplete,
    InvalidRoot,
    Cycle,
    MissingParent,
}

impl SnapshotError {
    /// The message shown for the error; it never quotes the report.
    pub fn message(&self) -> (r: &'static str)
        ensures
            r@ == error_message(*self),
    {
        match self {
            SnapshotError::InvalidIdentifier => "Keeper metadata report contains an invalid identifier",
            SnapshotError::MissingMemberships => "Keeper metadata report is missing record memberships",
            SnapshotError::Incomplete => "Keeper metadata report is incomplete or unsupported",
            SnapshotError::InvalidRoot => "Keeper metadata report has an invalid vault root",
            SnapshotError::Cycle => "Keeper metadata report contains a folder cycle",
            SnapshotError::MissingParent => "Keeper metadata report is missing a parent folder",
        }
    }
}

pub open spec fn error_message(e: SnapshotError) -> Seq<char> {
    match e {
        SnapshotError::InvalidIdentifier => "Keeper metadata report contains an invalid identifier"@,
        SnapshotError::MissingMemberships => "Keeper metadata report is missing record memberships"@,
        SnapshotError::Incomplete => "Keeper metadata report is incomplete or unsupported"@,
        SnapshotError::InvalidRoot => "Keeper metadata report has an invalid vault root"@,
        SnapshotError::Cycle => "Keeper metadata report contains a folder cycle"@,
        SnapshotError::MissingParent => "Keeper metadata report is missing a parent folder"@,
    }
}

} // verus!

verus! {

pub open spec fn folder_uids(s: VaultSnapshot) -> Seq<Seq<char>> {
    s.folders@.map_values(|f: SharedFolder| f.folder_uid@)
}

pub open spec fn parent_uids(s: VaultSnapshot) -> Seq<Seq<char>> {
    s.folders@.map_values(|f: SharedFolder| f.parent_uid@)
}

pub open spec fn record_uids(s: VaultSnapshot) -> Seq<Seq<char>> {
    s.records@.map_values(|r: Record| r.record_uid@)
}

pub open spec fn member_records(s: VaultSnapshot) -> Seq<Seq<char>> {
    s.memberships@.map_values(|m: Membership| m.record_uid@)
}

pub open spec fn member_folders(s: VaultSnapshot) -> Seq<Seq<char>> {
    s.memberships@.map_values(|m: Membership| m.folder_uid@)
}

/// ASCII letters and digits, `_` and `-`.
pub open spec fn safe_char(c: char) -> bool {
    ('a' <= c && c <= 'z') || ('A' <= c && c <= 'Z') || ('0' <= c && c <= '9') || c == '_' || c
        == '-'
}

pub open spec fn safe_uid(u: Seq<char>) -> bool {
    forall|i: int| 0 <= i < u.len() ==> safe_char(#[trigger] u[i])
}

pub open spec fn all_safe(us: Seq<Seq<char>>) -> bool {
    forall|i: int| 0 <= i < us.len() ==> safe_uid(#[trigger] us[i])
}

pub open spec fn distinct(us: Seq<Seq<char>>) -> bool {
    forall|i: int, j: int| 0 <= i < j < us.len() ==> #[trigger] us[i] != #[trigger] us[j]
}

/// Every element of `a` occurs in `b`.
pub open spec fn covered(a: Seq<Seq<char>>, b: Seq<Seq<char>>) -> bool {
    forall|i: int| 0 <= i < a.len() ==> b.contains(#[trigger] a[i])
}

/// The report is of the supported version, has the vault root, no repeated identifier,
/// no negative time or size, and memberships only between listed folders and records.
pub open spec fn complete(s: VaultSnapshot) -> bool {
    &&& s.schema_version == 1
    &&& folder_uids(s).contains(Seq::<char>::empty())
    &&& distinct(folder_uids(s))
    &&& distinct(record_uids(s))
    &&& !record_uids(s).contains(Seq::<char>::empty())
    &&& forall|i: int|
        0 <= i < s.records@.len() ==> (#[trigger] s.records@[i]).modified_ms >= 0
            && s.records@[i].size_bytes >= 0
    &&& covered(member_folders(s), folder_uids(s))
    &&& covered(member_records(s), record_uids(s))
}

/// The parent of the folder `uid`: that of the last folder listed with that uid.
pub open spec fn parent_of(uids: Seq<Seq<char>>, parents: Seq<Seq<char>>, uid: Seq<char>) -> Option<
    Seq<char>,
>
    decreases uids.len(),
{
    if uids.len() == 0 || parents.len() != uids.len() {
        None
    } else if uids.last() == uid {
        Some(parents.last())
    } else {
        parent_of(uids.drop_last(), parents.drop_last(), uid)
    }
}

/// How many of `uids` were already visited.
pub open spec fn visited(uids: Seq<Seq<char>>, seen: Seq<Seq<char>>) -> nat
    decreases uids.len(),
{
    if uids.len() == 0 {
        0
    } else {
        visited(uids.drop_last(), seen) + if seen.contains(uids.last()) {
            1nat
        } else {
            0nat
        }
    }
}

pub proof fn lemma_visited_le(uids: Seq<Seq<char>>, seen: Seq<Seq<char>>)
    ensures
        visited(uids, seen) <= uids.len(),
    decreases uids.len(),
{
    if uids.len() > 0 {
        lemma_visited_le(uids.drop_last(), seen);
    }
}

pub proof fn lemma_parent_of_listed(uids: Seq<Seq<char>>, parents: Seq<Seq<char>>, uid: Seq<char>)
    requires
        parent_of(uids, parents, uid) is Some,
    ensures
        uids.contains(uid),
    decreases uids.len(),
{
    if uids.last() != uid {
        lemma_parent_of_listed(uids.drop_last(), parents.drop_last(), uid);
        let i = choose|i: int| 0 <= i < uids.drop_last().len() && uids.drop_last()[i] == uid;
        assert(uids[i] == uid);
    } else {
        assert(uids[uids.len() - 1] == uid);
    }
}

pub proof fn lemma_visited_push(uids: Seq<Seq<char>>, seen: Seq<Seq<char>>, c: Seq<char>)
    ensures
        visited(uids, seen.push(c)) >= visited(uids, seen),
        uids.contains(c) && !seen.contains(c) ==> visited(uids, seen.push(c)) > visited(uids, seen),
    decreases uids.len(),
{
    if uids.len() > 0 {
        lemma_visited_push(uids.drop_last(), seen, c);
        let u = uids.last();
        if seen.contains(u) {
            let i = choose|i: int| 0 <= i < seen.len() && seen[i] == u;
            assert(seen.push(c)[i] == u);
        }
        if u == c {
            assert(seen.push(c)[seen.len() as int] == u);
        }
        if uids.contains(c) && u != c {
            let i = choose|i: int| 0 <= i < uids.len() && uids[i] == c;
            assert(uids.drop_last()[i] == c);
        }
    }
}

/// Walking up from `current` reaches the vault root, revisits a folder, or meets a
/// folder that is not listed.
pub open spec fn walk(
    uids: Seq<Seq<char>>,
    parents: Seq<Seq<char>>,
    current: Seq<char>,
    seen: Seq<Seq<char>>,
) -> Result<(), SnapshotError>
    decreases uids.len() - visited(uids, seen),
{
    if current.len() == 0 {
        Ok(())
    } else if seen.contains(current) {
        Err(SnapshotError::Cycle)
    } else {
        match parent_of(uids, parents, current) {
            None => Err(SnapshotError::MissingParent),
            Some(p) => {
                proof {
                    lemma_parent_of_listed(uids, parents, current);
                    lemma_visited_push(uids, seen, current);
                    lemma_visited_le(uids, seen.push(current));
                }
                walk(uids, parents, p, seen.push(current))
            },
        }
    }
}

/// The walks from the first `n` folders, in order: the first failure, if any.
pub open spec fn walks(uids: Seq<Seq<char>>, parents: Seq<Seq<char>>, n: int) -> Result<(), SnapshotError>
    decreases n,
{
    if n <= 0 {
        Ok(())
    } else {
        match walks(uids, parents, n - 1) {
            Err(e) => Err(e),
            Ok(()) => walk(uids, parents, uids[n - 1], seq![]),
        }
    }
}

/// What `validate_snapshot` decides, check by check.
pub open spec fn snapshot_check(s: VaultSnapshot) -> Result<(), SnapshotError> {
    if !all_safe(folder_uids(s)) || !all_safe(record_uids(s)) {
        Err(SnapshotError::InvalidIdentifier)
    } else if !covered(record_uids(s), member_records(s)) || !covered(member_records(s), record_uids(s)) {
        Err(SnapshotError::MissingMemberships)
    } else if !complete(s) {
        Err(SnapshotError::Incomplete)
    } else if parent_of(folder_uids(s), parent_uids(s), Seq::<char>::empty()) != Some(Seq::<char>::empty()) {
        Err(SnapshotError::InvalidRoot)
    } else {
        walks(folder_uids(s), parent_uids(s), folder_uids(s).len() as int)
    }
}

} // verus!

verus! {

fn folder_uid_lists(s: &VaultSnapshot) -> (r: (Vec<String>, Vec<String>))
    ensures
        strings_view(r.0@) == folder_uids(*s),
        strings_view(r.1@) == parent_uids(*s),
{
    let mut uids: Vec<String> = Vec::new();
    let mut parents: Vec<String> = Vec::new();
    let mut i: usize = 0;
    while i < s.folders.len()
        invariant
            i <= s.folders@.len(),
            uids@.len() == i && parents@.len() == i,
            forall|k: int| 0 <= k < i ==> (#[trigger] uids@[k])@ == s.folders@[k].folder_uid@,
            forall|k: int| 0 <= k < i ==> (#[trigger] parents@[k])@ == s.folders@[k].parent_uid@,
        decreases s.folders.len() - i,
    {
        uids.push(s.folders[i].folder_uid.clone());
        parents.push(s.folders[i].parent_uid.clone());
        i = i + 1;
    }
    assert(strings_view(uids@) =~= folder_uids(*s));
    assert(strings_view(parents@) =~= parent_uids(*s));
    (uids, parents)
}

fn record_uid_list(s: &VaultSnapshot) -> (r: Vec<String>)
    ensures
        strings_view(r@) == record_uids(*s),
{
    let mut r: Vec<String> = Vec::new();
    let mut i: usize = 0;
    while i < s.records.len()
        invariant
            i <= s.records@.len(),
            r@.len() == i,
            forall|k: int| 0 <= k < i ==> (#[trigger] r@[k])@ == s.records@[k].record_uid@,
        decreases s.records.len() - i,
    {
        r.push(s.records[i].record_uid.clone());
        i = i + 1;
    }
    assert(strings_view(r@) =~= record_uids(*s));
    r
}

fn member_lists(s: &VaultSnapshot) -> (r: (Vec<String>, Vec<String>))
    ensures
        strings_view(r.0@) == member_folders(*s),
        strings_view(r.1@) == member_records(*s),
{
    let mut folders: Vec<String> = Vec::new();
    let mut records: Vec<String> = Vec::new();
    let mut i: usize = 0;
    while i < s.memberships.len()
        invariant
            i <= s.memberships@.len(),
            folders@.len() == i && records@.len() == i,
            forall|k: int| 0 <= k < i ==> (#[trigger] folders@[k])@ == s.memberships@[k].folder_uid@,
            forall|k: int| 0 <= k < i ==> (#[trigger] records@[k])@ == s.memberships@[k].record_uid@,
        decreases s.memberships.len() - i,
    {
        folders.push(s.memberships[i].folder_uid.clone());
        records.push(s.memberships[i].record_uid.clone());
        i = i + 1;
    }
    assert(strings_view(folders@) =~= member_folders(*s));
    assert(strings_view(records@) =~= member_records(*s));
    (folders, records)
}

fn safe_uid_of(u: &str) -> (r: bool)
    ensures
        r == safe_uid(u@),
{
    let v = chars_of(u);
    let mut i: usize = 0;
    while i < v.len()
        invariant
            i <= v@.len(),
            v@ == u@,
            forall|k: int| 0 <= k < i ==> safe_char(#[trigger] v@[k]),
        decreases v.len() - i,
    {
        let c = v[i];
        if !(('a' <= c && c <= 'z') || ('A' <= c && c <= 'Z') || ('0' <= c && c <= '9') || c == '_'
            || c == '-') {
            return false;
        }
        i = i + 1;
    }
    true
}

fn all_safe_of(us: &Vec<String>) -> (r: bool)
    ensures
        r == all_safe(strings_view(us@)),
{
    let ghost sv = strings_view(us@);
    let mut i: usize = 0;
    while i < us.len()
        invariant
            i <= us@.len(),
            sv == strings_view(us@),
            forall|k: int| 0 <= k < i ==> safe_uid(#[trigger] sv[k]),
        decreases us.len() - i,
    {
        assert(sv[i as int] == us@[i as int]@);
        if !safe_uid_of(us[i].as_str()) {
            return false;
        }
        i = i + 1;
    }
    true
}

fn distinct_of(us: &Vec<String>) -> (r: bool)
    ensures
        r == distinct(strings_view(us@)),
{
    let ghost sv = strings_view(us@);
    let mut j: usize = 0;
    while j < us.len()
        invariant
            j <= us@.len(),
            sv == strings_view(us@),
            forall|a: int, b: int| 0 <= a < b < j ==> #[trigger] sv[a] != #[trigger] sv[b],
        decreases us.len() - j,
    {
        let mut i: usize = 0;
        while i < j
            invariant
                i <= j < us@.len(),
                sv == strings_view(us@),
                forall|a: int, b: int| 0 <= a < b < j ==> #[trigger] sv[a] != #[trigger] sv[b],
                forall|a: int| 0 <= a < i ==> #[trigger] sv[a] != sv[j as int],
            decreases j - i,
        {
            assert(sv[i as int] == us@[i as int]@ && sv[j as int] == us@[j as int]@);
            if str_eq(us[i].as_str(), us[j].as_str()) {
                return false;
            }
            i = i + 1;
        }
        j = j + 1;
    }
    true
}

fn covered_of(a: &Vec<String>, b: &Vec<String>) -> (r: bool)
    ensures
        r == covered(strings_view(a@), strings_view(b@)),
{
    let ghost av = strings_view(a@);
    let mut i: usize = 0;
    while i < a.len()
        invariant
            i <= a@.len(),
            av == strings_view(a@),
            forall|k: int| 0 <= k < i ==> strings_view(b@).contains(#[trigger] av[k]),
        decreases a.len() - i,
    {
        assert(av[i as int] == a@[i as int]@);
        if !listed(b, a[i].as_str()) {
            return false;
        }
        i = i + 1;
    }
    true
}

fn contains_empty(us: &Vec<String>) -> (r: bool)
    ensures
        r == strings_view(us@).contains(Seq::<char>::empty()),
{
    let ghost sv = strings_view(us@);
    let mut i: usize = 0;
    while i < us.len()
        invariant
            i <= us@.len(),
            sv == strings_view(us@),
            forall|k: int| 0 <= k < i ==> sv[k] != Seq::<char>::empty(),
        decreases us.len() - i,
    {
        assert(sv[i as int] == us@[i as int]@);
        if us[i].as_str().is_empty() {
            assert(sv[i as int] =~= Seq::<char>::empty());
            return true;
        }
        i = i + 1;
    }
    false
}

fn sizes_valid(s: &VaultSnapshot) -> (r: bool)
    ensures
        r == forall|i: int|
            0 <= i < s.records@.len() ==> (#[trigger] s.records@[i]).modified_ms >= 0
                && s.records@[i].size_bytes >= 0,
{
    let mut i: usize = 0;
    while i < s.records.len()
        invariant
            i <= s.records@.len(),
            forall|k: int|
                0 <= k < i ==> (#[trigger] s.records@[k]).modified_ms >= 0 && s.records@[k].size_bytes
                    >= 0,
        decreases s.records.len() - i,
    {
        if s.records[i].modified_ms < 0 || s.records[i].size_bytes < 0 {
            return false;
        }
        i = i + 1;
    }
    true
}

fn parent_index(uids: &Vec<String>, parents: &Vec<String>, uid: &str) -> (r: Option<usize>)
    requires
        uids@.len() == parents@.len(),
    ensures
        match r {
            Some(j) => j < parents@.len() && parent_of(strings_view(uids@), strings_view(parents@), uid@)
                == Some(parents@[j as int]@),
            None => parent_of(strings_view(uids@), strings_view(parents@), uid@) is None,
        },
{
    let ghost uv = strings_view(uids@);
    let ghost pv = strings_view(parents@);
    let mut j: usize = uids.len();
    assert(uv.take(j as int) == uv && pv.take(j as int) == pv);
    while j > 0
        invariant
            j <= uids@.len(),
            uids@.len() == parents@.len(),
            uv == strings_view(uids@),
            pv == strings_view(parents@),
            parent_of(uv, pv, uid@) == parent_of(uv.take(j as int), pv.take(j as int), uid@),
        decreases j,
    {
        assert(uv.take(j as int).last() == uids@[j - 1]@);
        assert(pv.take(j as int).last() == parents@[j - 1]@);
        assert(uv.take(j as int).drop_last() == uv.take(j - 1));
        assert(pv.take(j as int).drop_last() == pv.take(j - 1));
        if str_eq(uids[j - 1].as_str(), uid) {
            return Some(j - 1);
        }
        j = j - 1;
    }
    None
}

fn walk_from(uids: &Vec<String>, parents: &Vec<String>, start: &str) -> (r: Result<(), SnapshotError>)
    requires
        uids@.len() == parents@.len(),
    ensures
        r == walk(strings_view(uids@), strings_view(parents@), start@, seq![]),
{
    let ghost uv = strings_view(uids@);
    let ghost pv = strings_view(parents@);
    let mut seen: Vec<String> = Vec::new();
    let mut current: String = start.to_owned();
    proof {
        assert(strings_view(seen@) =~= seq![]);
        lemma_visited_le(uv, strings_view(seen@));
    }
    loop
        invariant
            uids@.len() == parents@.len(),
            uv == strings_view(uids@),
            pv == strings_view(parents@),
            walk(uv, pv, start@, seq![]) == walk(uv, pv, current@, strings_view(seen@)),
            visited(uv, strings_view(seen@)) <= uv.len(),
        decreases uv.len() - visited(uv, strings_view(seen@)),
    {
        let ghost sv = strings_view(seen@);
        if current.as_str().is_empty() {
            return Ok(());
        }
        if listed(&seen, current.as_str()) {
            return Err(SnapshotError::Cycle);
        }
        match parent_index(uids, parents, current.as_str()) {
            None => {
                return Err(SnapshotError::MissingParent);
            },
            Some(j) => {
                proof {
                    lemma_parent_of_listed(uv, pv, current@);
                    lemma_visited_push(uv, sv, current@);
                    lemma_visited_le(uv, sv.push(current@));
                }
                let next = parents[j].clone();
                seen.push(current);
                assert(strings_view(seen@) =~= sv.push(current@));
                current = next;
            },
        }
    }
}

/// Checks a metadata report before it replaces the inventory: identifiers are plain
/// (letters, digits, `_`, `-`), every record is in some folder and only listed records
/// are, the report is complete and of the supported version, the vault root is its own
/// parent, and every folder leads up to the root without a cycle. The first failing
/// check gives the error.
pub fn validate_snapshot(snapshot: &VaultSnapshot) -> (r: Result<(), SnapshotError>)
    ensures
        r == snapshot_check(*snapshot),
{
    let (uids, parents) = folder_uid_lists(snapshot);
    let records = record_uid_list(snapshot);
    if !all_safe_of(&uids) || !all_safe_of(&records) {
        return Err(SnapshotError::InvalidIdentifier);
    }
    let (member_folder_list, member_record_list) = member_lists(snapshot);
    if !covered_of(&records, &member_record_list) || !covered_of(&member_record_list, &records) {
        return Err(SnapshotError::MissingMemberships);
    }
    let complete_report = snapshot.schema_version == 1 && contains_empty(&uids) && distinct_of(&uids)
        && distinct_of(&records) && !contains_empty(&records) && sizes_valid(snapshot)
        && covered_of(&member_folder_list, &uids) && covered_of(&member_record_list, &records);
    if !complete_report {
        return Err(SnapshotError::Incomplete);
    }
    proof {
        reveal_strlit("");
        assert(""@ =~= Seq::<char>::empty());
    }
    match parent_index(&uids, &parents, "") {
        Some(j) => {
            if !parents[j].as_str().is_empty() {
                return Err(SnapshotError::InvalidRoot);
            }
            assert(parents@[j as int]@ =~= Seq::<char>::empty());
        },
        None => {
            return Err(SnapshotError::InvalidRoot);
        },
    }
    let ghost uv = strings_view(uids@);
    let ghost pv = strings_view(parents@);
    assert(snapshot_check(*snapshot) == walks(uv, pv, uv.len() as int));
    let mut i: usize = 0;
    while i < uids.len()
        invariant
            snapshot_check(*snapshot) == walks(uv, pv, uv.len() as int),
            uv.len() == uids@.len(),
            i <= uids@.len(),
            uids@.len() == parents@.len(),
            uv == strings_view(uids@),
            pv == strings_view(parents@),
            walks(uv, pv, i as int) is Ok,
        decreases uids.len() - i,
    {
        assert(uv[i as int] == uids@[i as int]@);
        let w = walk_from(&uids, &parents, uids[i].as_str());
        match w {
            Err(e) => {
                proof {
                    lemma_walks_stop(uv, pv, i as int, uv.len() as int);
                }
                return Err(e);
            },
            Ok(()) => {
                assert(walks(uv, pv, i + 1) == walk(uv, pv, uv[i as int], seq![]));
            },
        }
        i = i + 1;
    }
    assert(uv.len() == i);
    let r: Result<(), SnapshotError> = Ok(());
    assert(walks(uv, pv, uv.len() as int) matches Ok(u) && u == ());
    r
}

/// Once a walk fails, the result of the later ones does not matter.
proof fn lemma_walks_stop(uids: Seq<Seq<char>>, parents: Seq<Seq<char>>, i: int, n: int)
    requires
        0 <= i < n,
        walks(uids, parents, i) is Ok,
        walk(uids, parents, uids[i], seq![]) is Err,
    ensures
        walks(uids, parents, n) == walk(uids, parents, uids[i], seq![]),
    decreases n - i,
{
    if n > i + 1 {
        lemma_walks_stop(uids, parents, i, n - 1);
    }
}

} // verus!

verus! {

/// Where the Keeper Commander executable is: below the user's home directory (the
/// relative part is given), or as configured.
#[derive(Debug, Clone, PartialEq, Eq)]
pub enum CommandPath {
    Home(String),
    Given(String),
}

/// `s` without its leading `~` characters.
pub open spec fn skip_tildes(s: Seq<char>) -> Seq<char>
    decreases s.len(),
{
    if s.len() > 0 && s[0] == '~' {
        skip_tildes(s.drop_first())
    } else {
        s
    }
}

/// `s` without its leading `/` and `\` characters.
pub open spec fn skip_separators(s: Seq<char>) -> Seq<char>
    decreases s.len(),
{
    if s.len() > 0 && (s[0] == '/' || s[0] == '\\') {
        skip_separators(s.drop_first())
    } else {
        s
    }
}

pub open spec fn home_relative(c: Seq<char>) -> bool {
    c == "~"@ || starts_with(c, "~/"@) || starts_with(c, "~\\"@)
}

fn is_skipped(c: char, tildes: bool) -> (r: bool)
    ensures
        r == if tildes {
            c == '~'
        } else {
            c == '/' || c == '\\'
        },
{
    if tildes {
        c == '~'
    } else {
        c == '/' || c == '\\'
    }
}

fn skip_leading(v: &Vec<char>, tildes: bool) -> (r: Vec<char>)
    ensures
        r@ == if tildes {
            skip_tildes(v@)
        } else {
            skip_separators(v@)
        },
{
    let mut i: usize = 0;
    assert(v@.skip(0) == v@);
    while i < v.len() && is_skipped(v[i], tildes)
        invariant
            i <= v@.len(),
            (if tildes {
                skip_tildes(v@)
            } else {
                skip_separators(v@)
            }) == (if tildes {
                skip_tildes(v@.skip(i as int))
            } else {
                skip_separators(v@.skip(i as int))
            }),
        decreases v.len() - i,
    {
        assert(v@.skip(i as int)[0] == v@[i as int]);
        assert(v@.skip(i as int).drop_first() == v@.skip(i + 1));
        i = i + 1;
    }
    proof {
        if i < v@.len() {
            assert(v@.skip(i as int)[0] == v@[i as int]);
        }
    }
    crate::text::slice_chars(v.as_slice(), i, v.len())
}

/// Reads the configured Commander path: blank is refused; `~`, `~/…` and `~\…` are
/// below the home directory; anything else is used as given (trimmed).
pub fn command_path(command: &str) -> (r: Result<CommandPath, &'static str>)
    ensures
        match r {
            Err(m) => trim(command@).len() == 0 && m@ == "Configure the Keeper Commander executable path"@,
            Ok(CommandPath::Home(rel)) => trim(command@).len() > 0 && home_relative(trim(command@))
                && rel@ == skip_separators(skip_tildes(trim(command@))),
            Ok(CommandPath::Given(p)) => trim(command@).len() > 0 && !home_relative(trim(command@))
                && p@ == trim(command@),
        },
{
    let c = trim_str(command);
    if c.as_str().is_empty() {
        return Err("Configure the Keeper Commander executable path");
    }
    let home = str_eq(c.as_str(), "~") || strip_prefix_str(c.as_str(), "~/").is_some()
        || strip_prefix_str(c.as_str(), "~\\").is_some();
    if home {
        let v = chars_of(c.as_str());
        let a = skip_leading(&v, true);
        let b = skip_leading(&a, false);
        Ok(CommandPath::Home(crate::text::string_from_chars(b.as_slice())))
    } else {
        Ok(CommandPath::Given(c))
    }
}

/// The Commander executable's file name on this platform.
pub fn commander_file_name(windows: bool) -> (r: &'static str)
    ensures
        r@ == if windows {
            "keeper.exe"@
        } else {
            "keeper"@
        },
{
    if windows {
        "keeper.exe"
    } else {
        "keeper"
    }
}

/// Where BOREAL installs Commander: its file name in the `bin` directory.
pub fn installed_commander(bin: &str, windows: bool) -> (r: String)
    ensures
        r@ == joined_path(bin@, commander_file_name_spec(windows)),
{
    join_path(bin, commander_file_name(windows))
}

/// The Commander to run by default: the one in BOREAL's `bin` directory when that
/// directory is configured and `installed_commander` there is a file, else the bare
/// file name (looked up on `PATH`).
pub fn default_command(bin: Option<&str>, installed_is_file: bool, windows: bool) -> (r: String)
    ensures
        r@ == match bin {
            Some(b) => if installed_is_file {
                joined_path(b@, commander_file_name_spec(windows))
            } else {
                commander_file_name_spec(windows)
            },
            None => commander_file_name_spec(windows),
        },
{
    match bin {
        Some(b) => if installed_is_file {
            installed_commander(b, windows)
        } else {
            commander_file_name(windows).to_owned()
        },
        None => commander_file_name(windows).to_owned(),
    }
}

pub open spec fn commander_file_name_spec(windows: bool) -> Seq<char> {
    if windows {
        "keeper.exe"@
    } else {
        "keeper"@
    }
}

/// The error reported for a failed Commander call: only `prefix`, because Commander's
/// own diagnostics may hold account data.
pub fn command_error(prefix: &str, _stderr: &[u8]) -> (r: String)
    ensures
        r@ == prefix@,
{
    prefix.to_owned()
}

} // verus!

verus! {

/// Why a metadata report could not start a Keeper session.
pub const SESSION_REQUIRED: &'static str = "Keeper cannot resume an authenticated session for background indexing. Open Keeper with BOREAL's configured executable and config path, complete SSO/MFA, and run this-device register. If your organization permits it, run this-device persistent-login on. Verify login-status in a separate terminal process using the same config, then retry Save and test access.";

/// The outcome of a metadata report run, before its output is read: exit code 2 means
/// Keeper has no session it can resume; any other failure is reported without
/// Commander's own diagnostics.
pub fn report_status(code: Option<i32>, success: bool) -> (r: Result<(), &'static str>)
    ensures
        code == Some(2i32) ==> (r matches Err(m) && m@ == SESSION_REQUIRED@),
        code != Some(2i32) && !success ==> (r matches Err(m) && m@
            == "Keeper metadata report failed. Verify the session and use a Python/pipx installation of Keeper Commander."@),
        code != Some(2i32) && success ==> r is Ok,
{
    match code {
        Some(c) => {
            if c == 2 {
                return Err(SESSION_REQUIRED);
            }
        },
        None => {},
    }
    if !success {
        return Err(
            "Keeper metadata report failed. Verify the session and use a Python/pipx installation of Keeper Commander.",
        );
    }
    Ok(())
}

/// Whether the Commander path is a bare name, looked up on `PATH`: a single component
/// and not absolute.
pub fn searched_on_path(path: &str) -> (r: bool)
    ensures
        r == !(crate::paths::components_of(path@).len() > 1 || crate::paths::absolute_path(path@)),
{
    let parts = crate::paths::path_components(path);
    !(parts.len() > 1 || crate::paths::is_absolute_path(path))
}

/// The interpreters tried beside the Commander executable, in order.
pub fn python_names() -> (r: Vec<&'static str>)
    ensures
        r@.map_values(|s: &'static str| s@) == seq!["python"@, "python3"@, "python.exe"@],
{
    let mut r: Vec<&'static str> = Vec::new();
    r.push("python");
    r.push("python3");
    r.push("python.exe");
    assert(r@.map_values(|s: &'static str| s@) =~= seq!["python"@, "python3"@, "python.exe"@]);
    r
}

/// The interpreter a console script names on its first line (`#!…`), trimmed.
pub open spec fn shebang_of(script: Seq<char>) -> Option<Seq<char>> {
    let lines = crate::rclone::remotes::text_lines(script);
    if lines.len() > 0 && starts_with(lines[0], "#!"@) {
        Some(trim(lines[0].skip(2)))
    } else {
        None
    }
}

/// Reads the interpreter named by a console script's first line.
pub fn shebang_interpreter(script: &str) -> (r: Option<String>)
    ensures
        match shebang_of(script@) {
            Some(i) => r matches Some(s) && s@ == i,
            None => r is None,
        },
{
    let lines = crate::rclone::remotes::lines_of(script);
    if lines.len() == 0 {
        return None;
    }
    assert(lines@[0]@ == lines.deep_view()[0]);
    let first = crate::text::string_from_chars(lines[0].as_slice());
    proof {
        reveal_strlit("#!");
    }
    match strip_prefix_str(first.as_str(), "#!") {
        Some(rest) => Some(trim_str(rest.as_str())),
        None => None,
    }
}

/// Whether a file name is that of a Python interpreter.
pub fn is_python_name(name: &str) -> (r: bool)
    ensures
        r == starts_with(name@, "python"@),
{
    crate::text::starts_with_str(name, "python")
}

} // verus!
