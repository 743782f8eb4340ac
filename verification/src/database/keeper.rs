//! Keeper inventory listing: shared-folder access inherited by entries, tags,
//! filters and column sorts over the rows the database holds.
use vstd::prelude::*;
use crate::order::{insert_by, sort_by, dedup_by, lemma_insert_by_at};
use crate::text::{
    has_infix, lowercase_of, seq_lt, starts_with, str_contains, str_eq, string_lt, strip_prefix_str,
    to_lowercase, trim, trim_str, strings_view, listed,
};

verus! {

/// The filter value that selects entries without any tag.
pub const UNTAGGED_TAG_FILTER: &'static str = "__untagged__";

/// An inventory tag.
#[derive(Debug, Clone)]
pub struct Tag {
    pub slug: String,
    pub name: String,
}

pub struct TagView {
    pub slug: Seq<char>,
    pub name: Seq<char>,
}

impl View for Tag {
    type V = TagView;

    open spec fn view(&self) -> TagView {
        TagView { slug: self.slug@, name: self.name@ }
    }
}

pub open spec fn tags_view(s: Seq<Tag>) -> Seq<TagView> {
    s.map_values(|t: Tag| t@)
}

impl Tag {
    pub fn duplicate(&self) -> (r: Tag)
        ensures
            r@ == self@,
    {
        Tag { slug: self.slug.clone(), name: self.name.clone() }
    }
}

pub(crate) fn duplicate_tags(s: &Vec<Tag>) -> (r: Vec<Tag>)
    ensures
        tags_view(r@) == tags_view(s@),
{
    let mut r: Vec<Tag> = Vec::new();
    let mut i: usize = 0;
    while i < s.len()
        invariant
            i <= s@.len(),
            r@.len() == i,
            forall|k: int| 0 <= k < i ==> (#[trigger] r@[k])@ == s@[k]@,
        decreases s.len() - i,
    {
        r.push(s[i].duplicate());
        i = i + 1;
    }
    assert(tags_view(r@) =~= tags_view(s@));
    r
}

/// One sharing grant of a shared folder.
#[derive(Debug, Clone)]
pub struct AccessRow {
    pub known: bool,
    pub tags: Vec<Tag>,
    pub shared_to: String,
    pub permissions: String,
    pub target_kind: String,
}

pub struct AccessView {
    pub known: bool,
    pub tags: Seq<TagView>,
    pub shared_to: Seq<char>,
    pub permissions: Seq<char>,
    pub target_kind: Seq<char>,
}

impl View for AccessRow {
    type V = AccessView;

    open spec fn view(&self) -> AccessView {
        AccessView {
            known: self.known,
            tags: tags_view(self.tags@),
            shared_to: self.shared_to@,
            permissions: self.permissions@,
            target_kind: self.target_kind@,
        }
    }
}

pub open spec fn access_view(s: Seq<AccessRow>) -> Seq<AccessView> {
    s.map_values(|a: AccessRow| a@)
}

impl AccessRow {
    pub fn duplicate(&self) -> (r: AccessRow)
        ensures
            r@ == self@,
    {
        AccessRow {
            known: self.known,
            tags: duplicate_tags(&self.tags),
            shared_to: self.shared_to.clone(),
            permissions: self.permissions.clone(),
            target_kind: self.target_kind.clone(),
        }
    }
}

/// A Keeper folder or record as listed.
#[derive(Debug, Clone)]
pub struct EntryRow {
    pub uid: String,
    pub is_folder: bool,
    pub name: String,
    pub item_type: String,
    pub folder_path: String,
    pub parent_uid: String,
    pub is_accessible: bool,
    pub modified: String,
    pub modified_ms: i64,
    pub attachment_count: u32,
    pub size_bytes: i64,
    pub access: Vec<AccessRow>,
    pub tags: Vec<Tag>,
}

pub struct EntryView {
    pub uid: Seq<char>,
    pub is_folder: bool,
    pub name: Seq<char>,
    pub item_type: Seq<char>,
    pub folder_path: Seq<char>,
    pub parent_uid: Seq<char>,
    pub is_accessible: bool,
    pub modified: Seq<char>,
    pub modified_ms: i64,
    pub attachment_count: u32,
    pub size_bytes: i64,
    pub access: Seq<AccessView>,
    pub tags: Seq<TagView>,
}

impl View for EntryRow {
    type V = EntryView;

    open spec fn view(&self) -> EntryView {
        EntryView {
            uid: self.uid@,
            is_folder: self.is_folder,
            name: self.name@,
            item_type: self.item_type@,
            folder_path: self.folder_path@,
            parent_uid: self.parent_uid@,
            is_accessible: self.is_accessible,
            modified: self.modified@,
            modified_ms: self.modified_ms,
            attachment_count: self.attachment_count,
            size_bytes: self.size_bytes,
            access: access_view(self.access@),
            tags: tags_view(self.tags@),
        }
    }
}

pub open spec fn entries_view(s: Seq<EntryRow>) -> Seq<EntryView> {
    s.map_values(|e: EntryRow| e@)
}

/// A Keeper folder and its display path.
#[derive(Debug, Clone)]
pub struct FolderLocation {
    pub uid: String,
    pub path: String,
}

/// Counts shown on the Keeper overview.
#[derive(Debug, Clone, Default)]
pub struct Summary {
    pub shared_folders: u64,
    pub folders: u64,
    pub records: u64,
    pub shared_with: u64,
    pub managed_folders: u64,
    pub completed_at: String,
}

/// What the listing shows: one folder (or all entries), text filters, tag filters
/// (a leading `!` excludes) and the sort column.
pub struct ListOptions<'a> {
    pub folder: &'a str,
    pub all: bool,
    pub name: &'a str,
    pub path: &'a str,
    pub shared_to: &'a str,
    pub permission: &'a str,
    pub tag: &'a str,
    pub user_tag: &'a str,
    pub include_inaccessible: bool,
    pub sort: &'a str,
    pub descending: bool,
}

impl<'a> Default for ListOptions<'a> {
    fn default() -> (r: ListOptions<'a>)
        ensures
            r.folder@.len() == 0 && !r.all && r.name@.len() == 0 && r.path@.len() == 0
                && r.shared_to@.len() == 0 && r.permission@.len() == 0 && r.tag@.len() == 0
                && r.user_tag@.len() == 0 && !r.include_inaccessible && r.sort@.len() == 0
                && !r.descending,
    {
        proof {
            reveal_strlit("");
        }
        ListOptions {
            folder: "",
            all: false,
            name: "",
            path: "",
            shared_to: "",
            permission: "",
            tag: "",
            user_tag: "",
            include_inaccessible: false,
            sort: "",
            descending: false,
        }
    }
}

} // verus!

verus! {

/// The tag that a lookup by slug finds: the last one listed with that slug.
pub open spec fn tag_by_slug(tags: Seq<TagView>, slug: Seq<char>) -> Option<TagView>
    decreases tags.len(),
{
    if tags.len() == 0 {
        None
    } else if tags.last().slug == slug {
        Some(tags.last())
    } else {
        tag_by_slug(tags.drop_last(), slug)
    }
}

pub open spec fn has_slug(tags: Seq<TagView>, slug: Seq<char>) -> bool {
    exists|i: int| 0 <= i < tags.len() && (#[trigger] tags[i]).slug == slug
}

/// A directory address and the slug of one tag of its person, if any.
pub open spec fn identities_view(s: Seq<(String, Option<String>)>) -> Seq<(Seq<char>, Option<Seq<char>>)> {
    s.map_values(
        |r: (String, Option<String>)|
            (
                r.0@,
                match r.1 {
                    Some(x) => Some(x@),
                    None => None,
                },
            ),
    )
}

/// The address belongs to a person of the directory.
pub open spec fn is_known(ids: Seq<(Seq<char>, Option<Seq<char>>)>, email: Seq<char>) -> bool {
    exists|i: int| 0 <= i < ids.len() && (#[trigger] ids[i]).0 == email
}

/// The directory tags of the person with this address, each once, in the order listed.
pub open spec fn user_tags_of(
    ids: Seq<(Seq<char>, Option<Seq<char>>)>,
    directory_tags: Seq<TagView>,
    email: Seq<char>,
) -> Seq<TagView>
    decreases ids.len(),
{
    if ids.len() == 0 {
        seq![]
    } else {
        let prev = user_tags_of(ids.drop_last(), directory_tags, email);
        let row = ids.last();
        match row.1 {
            Some(slug) => match tag_by_slug(directory_tags, slug) {
                Some(t) => if row.0 == email && !has_slug(prev, t.slug) {
                    prev.push(t)
                } else {
                    prev
                },
                None => prev,
            },
            None => prev,
        }
    }
}

/// The address a grant names: without a `(Team User)` marker, trimmed, lower case.
pub open spec fn grant_email(shared_to: Seq<char>) -> Seq<char> {
    let bare = if starts_with(shared_to, "(Team User)"@) {
        shared_to.skip("(Team User)"@.len() as int)
    } else {
        shared_to
    };
    lowercase_of(trim(bare))
}

/// A grant with its person resolved: team grants are left as they are.
pub open spec fn resolved(
    a: AccessView,
    ids: Seq<(Seq<char>, Option<Seq<char>>)>,
    directory_tags: Seq<TagView>,
) -> AccessView {
    if a.target_kind == "team"@ {
        a
    } else {
        AccessView {
            known: is_known(ids, grant_email(a.shared_to)),
            tags: user_tags_of(ids, directory_tags, grant_email(a.shared_to)),
            ..a
        }
    }
}

fn tag_index_by_slug(tags: &Vec<Tag>, slug: &str) -> (r: Option<usize>)
    ensures
        match r {
            Some(j) => j < tags@.len() && tag_by_slug(tags_view(tags@), slug@) == Some(tags@[j as int]@),
            None => tag_by_slug(tags_view(tags@), slug@) is None,
        },
{
    let ghost tv = tags_view(tags@);
    let mut j: usize = tags.len();
    assert(tv.take(j as int) == tv);
    while j > 0
        invariant
            j <= tags@.len(),
            tv == tags_view(tags@),
            tag_by_slug(tv, slug@) == tag_by_slug(tv.take(j as int), slug@),
        decreases j,
    {
        let ghost t = tv.take(j as int);
        assert(t.last() == tags@[j - 1]@);
        assert(t.drop_last() == tv.take(j - 1));
        if str_eq(tags[j - 1].slug.as_str(), slug) {
            return Some(j - 1);
        }
        j = j - 1;
    }
    None
}

fn slug_listed(tags: &Vec<Tag>, slug: &str) -> (r: bool)
    ensures
        r == has_slug(tags_view(tags@), slug@),
{
    let ghost tv = tags_view(tags@);
    let mut i: usize = 0;
    while i < tags.len()
        invariant
            i <= tags@.len(),
            tv == tags_view(tags@),
            forall|k: int| 0 <= k < i ==> (#[trigger] tv[k]).slug != slug@,
        decreases tags.len() - i,
    {
        assert(tv[i as int] == tags@[i as int]@);
        if str_eq(tags[i].slug.as_str(), slug) {
            return true;
        }
        i = i + 1;
    }
    false
}

fn email_known(ids: &Vec<(String, Option<String>)>, email: &str) -> (r: bool)
    ensures
        r == is_known(identities_view(ids@), email@),
{
    let ghost iv = identities_view(ids@);
    let mut i: usize = 0;
    while i < ids.len()
        invariant
            i <= ids@.len(),
            iv == identities_view(ids@),
            forall|k: int| 0 <= k < i ==> (#[trigger] iv[k]).0 != email@,
        decreases ids.len() - i,
    {
        assert(iv[i as int].0 == ids@[i as int].0@);
        if str_eq(ids[i].0.as_str(), email) {
            return true;
        }
        i = i + 1;
    }
    false
}

fn user_tags_for(ids: &Vec<(String, Option<String>)>, directory_tags: &Vec<Tag>, email: &str) -> (r:
    Vec<Tag>)
    ensures
        tags_view(r@) == user_tags_of(identities_view(ids@), tags_view(directory_tags@), email@),
{
    let ghost iv = identities_view(ids@);
    let ghost dv = tags_view(directory_tags@);
    let mut r: Vec<Tag> = Vec::new();
    let mut i: usize = 0;
    while i < ids.len()
        invariant
            i <= ids@.len(),
            iv == identities_view(ids@),
            dv == tags_view(directory_tags@),
            tags_view(r@) == user_tags_of(iv.take(i as int), dv, email@),
        decreases ids.len() - i,
    {
        let ghost t = iv.take(i + 1);
        assert(t.drop_last() == iv.take(i as int));
        assert(t.last() == iv[i as int]);
        match &ids[i].1 {
            Some(slug) => {
                match tag_index_by_slug(directory_tags, slug.as_str()) {
                    Some(j) => {
                        if str_eq(ids[i].0.as_str(), email) && !slug_listed(
                            &r,
                            directory_tags[j].slug.as_str(),
                        ) {
                            r.push(directory_tags[j].duplicate());
                            assert(tags_view(r@).drop_last() =~= tags_view(r@.drop_last()));
                        }
                    },
                    None => {},
                }
            },
            None => {},
        }
        i = i + 1;
    }
    assert(iv.take(ids@.len() as int) == iv);
    r
}

/// The address a grant names, as `grant_email` describes.
fn grant_email_of(shared_to: &str) -> (r: String)
    ensures
        r@ == grant_email(shared_to@),
{
    let stripped = strip_prefix_str(shared_to, "(Team User)");
    let trimmed = match stripped {
        Some(rest) => trim_str(rest.as_str()),
        None => trim_str(shared_to),
    };
    to_lowercase(trimmed.as_str())
}

fn resolve_grant(
    a: &AccessRow,
    ids: &Vec<(String, Option<String>)>,
    directory_tags: &Vec<Tag>,
) -> (r: AccessRow)
    ensures
        r@ == resolved(a@, identities_view(ids@), tags_view(directory_tags@)),
{
    let mut r = a.duplicate();
    proof {
        reveal_strlit("team");
    }
    if str_eq(a.target_kind.as_str(), "team") {
        return r;
    }
    let email = grant_email_of(a.shared_to.as_str());
    r.known = email_known(ids, email.as_str());
    r.tags = user_tags_for(ids, directory_tags, email.as_str());
    r
}

} // verus!

verus! {

/// Grants as stored: the uid of the shared folder and the grant.
pub open spec fn grants_view(s: Seq<(String, AccessRow)>) -> Seq<(Seq<char>, AccessView)> {
    s.map_values(|g: (String, AccessRow)| (g.0@, g.1@))
}

/// The grants of one folder, in the order stored.
pub open spec fn access_of(rows: Seq<(Seq<char>, AccessView)>, uid: Seq<char>) -> Seq<AccessView> {
    rows.filter_map(
        |g: (Seq<char>, AccessView)|
            if g.0 == uid {
                Some(g.1)
            } else {
                None
            },
    )
}

/// The folder that a lookup by uid finds: the last one listed with that uid.
pub open spec fn folder_by_uid(folders: Seq<EntryView>, uid: Seq<char>) -> Option<EntryView>
    decreases folders.len(),
{
    if folders.len() == 0 {
        None
    } else if folders.last().uid == uid {
        Some(folders.last())
    } else {
        folder_by_uid(folders.drop_last(), uid)
    }
}

/// Folder types whose own grants end the walk up the hierarchy.
pub open spec fn is_share_type(t: Seq<char>) -> bool {
    t == "Shared Folder"@ || t == "Nested Share Folder"@ || t == "Nested Shared Folder"@
}

/// How many folders have a uid already visited.
pub open spec fn seen_count(folders: Seq<EntryView>, seen: Seq<Seq<char>>) -> nat
    decreases folders.len(),
{
    if folders.len() == 0 {
        0
    } else {
        seen_count(folders.drop_last(), seen) + if seen.contains(folders.last().uid) {
            1nat
        } else {
            0nat
        }
    }
}

pub proof fn lemma_seen_count_le(folders: Seq<EntryView>, seen: Seq<Seq<char>>)
    ensures
        seen_count(folders, seen) <= folders.len(),
    decreases folders.len(),
{
    if folders.len() > 0 {
        lemma_seen_count_le(folders.drop_last(), seen);
    }
}

pub proof fn lemma_seen_count_push(folders: Seq<EntryView>, seen: Seq<Seq<char>>, c: Seq<char>)
    ensures
        seen_count(folders, seen.push(c)) >= seen_count(folders, seen),
        folder_by_uid(folders, c) is Some && !seen.contains(c) ==> seen_count(folders, seen.push(c))
            > seen_count(folders, seen),
    decreases folders.len(),
{
    if folders.len() > 0 {
        lemma_seen_count_push(folders.drop_last(), seen, c);
        let u = folders.last().uid;
        if seen.contains(u) {
            let i = choose|i: int| 0 <= i < seen.len() && seen[i] == u;
            assert(seen.push(c)[i] == u);
        }
        if u == c {
            assert(seen.push(c)[seen.len() as int] == u);
        }
    }
}

/// The grants met walking up from `current`: the folder's own grants, then, unless it is
/// a shared folder, the vault root or unknown, those of its parent; a folder already
/// visited ends the walk.
pub open spec fn inherited_chain(
    current: Seq<char>,
    seen: Seq<Seq<char>>,
    rows: Seq<(Seq<char>, AccessView)>,
    folders: Seq<EntryView>,
) -> Seq<AccessView>
    decreases folders.len() - seen_count(folders, seen),
{
    if seen.contains(current) {
        seq![]
    } else {
        let here = access_of(rows, current);
        if current.len() == 0 {
            here
        } else {
            match folder_by_uid(folders, current) {
                Some(f) => if is_share_type(f.item_type) {
                    here
                } else {
                    proof {
                        lemma_seen_count_push(folders, seen, current);
                        lemma_seen_count_le(folders, seen.push(current));
                    }
                    here + inherited_chain(f.parent_uid, seen.push(current), rows, folders)
                },
                None => here,
            }
        }
    }
}

/// Grant order: by the addressee, then the permissions.
pub open spec fn grant_lt(a: AccessView, b: AccessView) -> bool {
    seq_lt(a.shared_to, b.shared_to) || (a.shared_to == b.shared_to && seq_lt(
        a.permissions,
        b.permissions,
    ))
}

pub open spec fn same_grant(a: AccessView, b: AccessView) -> bool {
    a.shared_to == b.shared_to && a.permissions == b.permissions
}

pub open spec fn grant_order() -> spec_fn(AccessView, AccessView) -> bool {
    |a: AccessView, b: AccessView| grant_lt(a, b)
}

pub open spec fn same_grant_rel() -> spec_fn(AccessView, AccessView) -> bool {
    |a: AccessView, b: AccessView| same_grant(a, b)
}

/// The sharing context of an entry: the grants met walking up from `uid`, sorted,
/// each addressee and permission once.
pub open spec fn inherited_access(
    uid: Seq<char>,
    rows: Seq<(Seq<char>, AccessView)>,
    folders: Seq<EntryView>,
) -> Seq<AccessView> {
    dedup_by(sort_by(inherited_chain(uid, seq![], rows, folders), grant_order()), same_grant_rel())
}

} // verus!

verus! {

fn resolve_grants(
    rows: &Vec<(String, AccessRow)>,
    ids: &Vec<(String, Option<String>)>,
    directory_tags: &Vec<Tag>,
) -> (r: Vec<(String, AccessRow)>)
    ensures
        r@.len() == rows@.len(),
        forall|k: int|
            0 <= k < rows@.len() ==> (#[trigger] grants_view(r@)[k]) == (
                grants_view(rows@)[k].0,
                resolved(grants_view(rows@)[k].1, identities_view(ids@), tags_view(directory_tags@)),
            ),
{
    let mut r: Vec<(String, AccessRow)> = Vec::new();
    let mut i: usize = 0;
    while i < rows.len()
        invariant
            i <= rows@.len(),
            r@.len() == i,
            forall|k: int|
                0 <= k < i ==> (#[trigger] r@[k]).0@ == rows@[k].0@ && r@[k].1@ == resolved(
                    rows@[k].1@,
                    identities_view(ids@),
                    tags_view(directory_tags@),
                ),
        decreases rows.len() - i,
    {
        let g = resolve_grant(&rows[i].1, ids, directory_tags);
        r.push((rows[i].0.clone(), g));
        i = i + 1;
    }
    r
}

fn append_grants_of(out: &mut Vec<AccessRow>, rows: &Vec<(String, AccessRow)>, uid: &str)
    ensures
        access_view(final(out)@) == access_view(old(out)@) + access_of(grants_view(rows@), uid@),
{
    let ghost start = access_view(out@);
    let ghost gv = grants_view(rows@);
    let mut i: usize = 0;
    while i < rows.len()
        invariant
            i <= rows@.len(),
            gv == grants_view(rows@),
            access_view(out@) == start + access_of(gv.take(i as int), uid@),
        decreases rows.len() - i,
    {
        let ghost t = gv.take(i + 1);
        assert(t.drop_last() == gv.take(i as int));
        assert(t.last() == gv[i as int]);
        if str_eq(rows[i].0.as_str(), uid) {
            let ghost before = access_view(out@);
            out.push(rows[i].1.duplicate());
            assert(access_view(out@) =~= before.push(gv[i as int].1));
        }
        i = i + 1;
    }
    assert(gv.take(rows@.len() as int) == gv);
}

fn folder_index(folders: &Vec<EntryRow>, uid: &str) -> (r: Option<usize>)
    ensures
        match r {
            Some(j) => j < folders@.len() && folder_by_uid(entries_view(folders@), uid@) == Some(
                folders@[j as int]@,
            ),
            None => folder_by_uid(entries_view(folders@), uid@) is None,
        },
{
    let ghost fv = entries_view(folders@);
    let mut j: usize = folders.len();
    assert(fv.take(j as int) == fv);
    while j > 0
        invariant
            j <= folders@.len(),
            fv == entries_view(folders@),
            folder_by_uid(fv, uid@) == folder_by_uid(fv.take(j as int), uid@),
        decreases j,
    {
        let ghost t = fv.take(j as int);
        assert(t.last() == folders@[j - 1]@);
        assert(t.drop_last() == fv.take(j - 1));
        if str_eq(folders[j - 1].uid.as_str(), uid) {
            return Some(j - 1);
        }
        j = j - 1;
    }
    None
}

fn is_share_type_of(t: &str) -> (r: bool)
    ensures
        r == is_share_type(t@),
{
    str_eq(t, "Shared Folder") || str_eq(t, "Nested Share Folder") || str_eq(t, "Nested Shared Folder")
}

fn inherited_chain_of(uid: &str, rows: &Vec<(String, AccessRow)>, folders: &Vec<EntryRow>) -> (r: Vec<
    AccessRow,
>)
    ensures
        access_view(r@) == inherited_chain(uid@, seq![], grants_view(rows@), entries_view(folders@)),
{
    let ghost gv = grants_view(rows@);
    let ghost fv = entries_view(folders@);
    let ghost whole = inherited_chain(uid@, seq![], gv, fv);
    let mut out: Vec<AccessRow> = Vec::new();
    let mut seen: Vec<String> = Vec::new();
    let mut current: String = uid.to_owned();
    proof {
        assert(strings_view(seen@) =~= seq![]);
        assert(access_view(out@) =~= seq![]);
        lemma_seen_count_le(fv, strings_view(seen@));
    }
    loop
        invariant
            gv == grants_view(rows@),
            fv == entries_view(folders@),
            whole == inherited_chain(uid@, seq![], gv, fv),
            access_view(out@) + inherited_chain(current@, strings_view(seen@), gv, fv) == whole,
            seen_count(fv, strings_view(seen@)) <= fv.len(),
        decreases fv.len() - seen_count(fv, strings_view(seen@)),
    {
        let ghost sv = strings_view(seen@);
        if listed(&seen, current.as_str()) {
            assert(access_view(out@) + seq![] =~= access_view(out@));
            return out;
        }
        let ghost before = access_view(out@);
        append_grants_of(&mut out, rows, current.as_str());
        if current.as_str().is_empty() {
            return out;
        }
        match folder_index(folders, current.as_str()) {
            Some(j) => {
                if is_share_type_of(folders[j].item_type.as_str()) {
                    return out;
                }
                let ghost here = access_of(gv, current@);
                let ghost next = inherited_chain(folders@[j as int].parent_uid@, sv.push(current@), gv, fv);
                assert(before + (here + next) == access_view(out@) + next);
                proof {
                    lemma_seen_count_push(fv, sv, current@);
                    lemma_seen_count_le(fv, sv.push(current@));
                }
                let parent = folders[j].parent_uid.clone();
                seen.push(current);
                assert(strings_view(seen@) =~= sv.push(current@));
                current = parent;
            },
            None => {
                return out;
            },
        }
    }
}

} // verus!

verus! {

fn grant_before(a: &AccessRow, b: &AccessRow) -> (r: bool)
    ensures
        r == grant_lt(a@, b@),
{
    string_lt(a.shared_to.as_str(), b.shared_to.as_str()) || (a.shared_to == b.shared_to
        && string_lt(a.permissions.as_str(), b.permissions.as_str()))
}

fn insert_grant(s: &mut Vec<AccessRow>, x: AccessRow)
    ensures
        access_view(final(s)@) == insert_by(access_view(old(s)@), x@, grant_order()),
{
    let ghost sv = access_view(s@);
    let mut j: usize = s.len();
    while j > 0 && grant_before(&x, &s[j - 1])
        invariant
            j <= s@.len(),
            sv == access_view(s@),
            forall|k: int| j <= k < sv.len() ==> (grant_order())(x@, #[trigger] sv[k]),
        decreases j,
    {
        j = j - 1;
    }
    proof {
        if j > 0 {
            assert(sv[j - 1] == s@[j - 1]@);
        }
        lemma_insert_by_at(sv, x@, grant_order(), j as int);
    }
    let ghost xv = x@;
    s.insert(j, x);
    assert(access_view(s@) =~= sv.take(j as int) + seq![xv] + sv.skip(j as int));
}

fn sort_grants(v: &Vec<AccessRow>) -> (r: Vec<AccessRow>)
    ensures
        access_view(r@) == sort_by(access_view(v@), grant_order()),
{
    let mut r: Vec<AccessRow> = Vec::new();
    let mut i: usize = 0;
    while i < v.len()
        invariant
            i <= v@.len(),
            access_view(r@) == sort_by(access_view(v@).take(i as int), grant_order()),
        decreases v.len() - i,
    {
        proof {
            let t = access_view(v@).take(i + 1);
            assert(t.drop_last() == access_view(v@).take(i as int));
            assert(t.last() == v@[i as int]@);
        }
        insert_grant(&mut r, v[i].duplicate());
        i = i + 1;
    }
    assert(access_view(v@).take(v@.len() as int) == access_view(v@));
    r
}

fn dedup_grants(v: &Vec<AccessRow>) -> (r: Vec<AccessRow>)
    ensures
        access_view(r@) == dedup_by(access_view(v@), same_grant_rel()),
{
    let mut r: Vec<AccessRow> = Vec::new();
    let mut i: usize = 0;
    while i < v.len()
        invariant
            i <= v@.len(),
            access_view(r@) == dedup_by(access_view(v@).take(i as int), same_grant_rel()),
        decreases v.len() - i,
    {
        proof {
            let t = access_view(v@).take(i + 1);
            assert(t.drop_last() == access_view(v@).take(i as int));
            assert(t.last() == v@[i as int]@);
        }
        let keep = if r.len() > 0 {
            let last = &r[r.len() - 1];
            assert(access_view(r@).last() == last@);
            !(v[i].shared_to == last.shared_to && v[i].permissions == last.permissions)
        } else {
            true
        };
        if keep {
            let ghost before = access_view(r@);
            r.push(v[i].duplicate());
            assert(access_view(r@) =~= before.push(v@[i as int]@));
        }
        i = i + 1;
    }
    assert(access_view(v@).take(v@.len() as int) == access_view(v@));
    r
}

fn inherited_access_of(uid: &str, rows: &Vec<(String, AccessRow)>, folders: &Vec<EntryRow>) -> (r: Vec<
    AccessRow,
>)
    ensures
        access_view(r@) == inherited_access(uid@, grants_view(rows@), entries_view(folders@)),
{
    let chain = inherited_chain_of(uid, rows, folders);
    let sorted = sort_grants(&chain);
    dedup_grants(&sorted)
}

} // verus!

verus! {

/// Tag assignments as stored: whether the entry is a folder, its uid, the tag slug.
pub open spec fn tag_rows_view(s: Seq<(bool, String, String)>) -> Seq<(bool, Seq<char>, Seq<char>)> {
    s.map_values(|r: (bool, String, String)| (r.0, r.1@, r.2@))
}

/// The Keeper tags assigned to one entry, in the order stored; slugs that are not
/// Keeper tags are skipped.
pub open spec fn entry_tags(
    rows: Seq<(bool, Seq<char>, Seq<char>)>,
    keeper_tags: Seq<TagView>,
    is_folder: bool,
    uid: Seq<char>,
) -> Seq<TagView> {
    rows.filter_map(
        |r: (bool, Seq<char>, Seq<char>)|
            if r.0 == is_folder && r.1 == uid {
                tag_by_slug(keeper_tags, r.2)
            } else {
                None
            },
    )
}

/// Tags are shown by name, ignoring case.
pub open spec fn tag_lt(a: TagView, b: TagView) -> bool {
    seq_lt(lowercase_of(a.name), lowercase_of(b.name))
}

pub open spec fn tag_order() -> spec_fn(TagView, TagView) -> bool {
    |a: TagView, b: TagView| tag_lt(a, b)
}

fn tag_before(a: &Tag, b: &Tag) -> (r: bool)
    ensures
        r == tag_lt(a@, b@),
{
    let x = to_lowercase(a.name.as_str());
    let y = to_lowercase(b.name.as_str());
    string_lt(x.as_str(), y.as_str())
}

fn insert_tag(s: &mut Vec<Tag>, x: Tag)
    ensures
        tags_view(final(s)@) == insert_by(tags_view(old(s)@), x@, tag_order()),
{
    let ghost sv = tags_view(s@);
    let mut j: usize = s.len();
    while j > 0 && tag_before(&x, &s[j - 1])
        invariant
            j <= s@.len(),
            sv == tags_view(s@),
            forall|k: int| j <= k < sv.len() ==> (tag_order())(x@, #[trigger] sv[k]),
        decreases j,
    {
        j = j - 1;
    }
    proof {
        if j > 0 {
            assert(sv[j - 1] == s@[j - 1]@);
        }
        lemma_insert_by_at(sv, x@, tag_order(), j as int);
    }
    let ghost xv = x@;
    s.insert(j, x);
    assert(tags_view(s@) =~= sv.take(j as int) + seq![xv] + sv.skip(j as int));
}

/// The tags of one entry, sorted by name.
fn entry_tags_of(
    rows: &Vec<(bool, String, String)>,
    keeper_tags: &Vec<Tag>,
    is_folder: bool,
    uid: &str,
) -> (r: Vec<Tag>)
    ensures
        tags_view(r@) == sort_by(
            entry_tags(tag_rows_view(rows@), tags_view(keeper_tags@), is_folder, uid@),
            tag_order(),
        ),
{
    let ghost rv = tag_rows_view(rows@);
    let ghost kv = tags_view(keeper_tags@);
    let mut r: Vec<Tag> = Vec::new();
    let ghost mut picked: Seq<TagView> = seq![];
    let mut i: usize = 0;
    while i < rows.len()
        invariant
            i <= rows@.len(),
            rv == tag_rows_view(rows@),
            kv == tags_view(keeper_tags@),
            picked == entry_tags(rv.take(i as int), kv, is_folder, uid@),
            tags_view(r@) == sort_by(picked, tag_order()),
        decreases rows.len() - i,
    {
        let ghost t = rv.take(i + 1);
        assert(t.drop_last() == rv.take(i as int));
        assert(t.last() == rv[i as int]);
        if rows[i].0 == is_folder && str_eq(rows[i].1.as_str(), uid) {
            match tag_index_by_slug(keeper_tags, rows[i].2.as_str()) {
                Some(j) => {
                    let tag = keeper_tags[j].duplicate();
                    proof {
                        picked = picked.push(tag@);
                        assert(picked.drop_last() == entry_tags(rv.take(i as int), kv, is_folder, uid@));
                    }
                    insert_tag(&mut r, tag);
                },
                None => {},
            }
        }
        i = i + 1;
    }
    assert(rv.take(rows@.len() as int) == rv);
    r
}

/// An entry with its inherited sharing context and its sorted tags.
pub open spec fn decorated(
    e: EntryView,
    grants: Seq<(Seq<char>, AccessView)>,
    folders: Seq<EntryView>,
    tag_rows: Seq<(bool, Seq<char>, Seq<char>)>,
    keeper_tags: Seq<TagView>,
) -> EntryView {
    EntryView {
        access: inherited_access(
            if e.is_folder {
                e.uid
            } else {
                e.parent_uid
            },
            grants,
            folders,
        ),
        tags: sort_by(entry_tags(tag_rows, keeper_tags, e.is_folder, e.uid), tag_order()),
        ..e
    }
}

fn decorate(
    e: &EntryRow,
    grants: &Vec<(String, AccessRow)>,
    folders: &Vec<EntryRow>,
    tag_rows: &Vec<(bool, String, String)>,
    keeper_tags: &Vec<Tag>,
) -> (r: EntryRow)
    ensures
        r@ == decorated(
            e@,
            grants_view(grants@),
            entries_view(folders@),
            tag_rows_view(tag_rows@),
            tags_view(keeper_tags@),
        ),
{
    let access = if e.is_folder {
        inherited_access_of(e.uid.as_str(), grants, folders)
    } else {
        inherited_access_of(e.parent_uid.as_str(), grants, folders)
    };
    let tags = entry_tags_of(tag_rows, keeper_tags, e.is_folder, e.uid.as_str());
    EntryRow {
        uid: e.uid.clone(),
        is_folder: e.is_folder,
        name: e.name.clone(),
        item_type: e.item_type.clone(),
        folder_path: e.folder_path.clone(),
        parent_uid: e.parent_uid.clone(),
        is_accessible: e.is_accessible,
        modified: e.modified.clone(),
        modified_ms: e.modified_ms,
        attachment_count: e.attachment_count,
        size_bytes: e.size_bytes,
        access,
        tags,
    }
}

} // verus!

verus! {

pub struct ListOptionsView {
    pub folder: Seq<char>,
    pub all: bool,
    pub name: Seq<char>,
    pub path: Seq<char>,
    pub shared_to: Seq<char>,
    pub permission: Seq<char>,
    pub tag: Seq<char>,
    pub user_tag: Seq<char>,
    pub include_inaccessible: bool,
    pub sort: Seq<char>,
    pub descending: bool,
}

impl<'a> View for ListOptions<'a> {
    type V = ListOptionsView;

    open spec fn view(&self) -> ListOptionsView {
        ListOptionsView {
            folder: self.folder@,
            all: self.all,
            name: self.name@,
            path: self.path@,
            shared_to: self.shared_to@,
            permission: self.permission@,
            tag: self.tag@,
            user_tag: self.user_tag@,
            include_inaccessible: self.include_inaccessible,
            sort: self.sort@,
            descending: self.descending,
        }
    }
}

/// Case-insensitive containment of the trimmed filter text.
pub open spec fn contains_ci(value: Seq<char>, filter: Seq<char>) -> bool {
    has_infix(lowercase_of(value), lowercase_of(trim(filter)))
}

/// A tag filter: a leading `!` turns it into an exclusion.
pub open spec fn negated(filter: Seq<char>) -> (bool, Seq<char>) {
    if starts_with(filter, "!"@) {
        (true, filter.skip(1))
    } else {
        (false, filter)
    }
}

/// Some grant of the entry, not to a team, is to a person with this directory tag.
pub open spec fn has_user_tag(e: EntryView, slug: Seq<char>) -> bool {
    exists|i: int|
        0 <= i < e.access.len() && (#[trigger] e.access[i]).target_kind != "team"@ && has_slug(
            e.access[i].tags,
            slug,
        )
}

pub open spec fn shared_with(e: EntryView, filter: Seq<char>) -> bool {
    exists|i: int| 0 <= i < e.access.len() && contains_ci((#[trigger] e.access[i]).shared_to, filter)
}

pub open spec fn permitted(e: EntryView, filter: Seq<char>) -> bool {
    exists|i: int| 0 <= i < e.access.len() && contains_ci((#[trigger] e.access[i]).permissions, filter)
}

/// Whether the listing shows the entry: every filter that is set must match.
pub open spec fn shown(e: EntryView, o: ListOptionsView) -> bool {
    let (excluded, tag) = negated(o.tag);
    let (exclude_user_tag, user_tag) = negated(o.user_tag);
    &&& (user_tag.len() == 0 || has_user_tag(e, user_tag) != exclude_user_tag)
    &&& (o.include_inaccessible || e.is_accessible)
    &&& (o.all || e.parent_uid == o.folder)
    &&& contains_ci(e.name, o.name)
    &&& contains_ci(e.folder_path, o.path)
    &&& (trim(o.shared_to).len() == 0 || shared_with(e, o.shared_to))
    &&& (trim(o.permission).len() == 0 || permitted(e, o.permission))
    &&& (tag.len() == 0 || (if tag == UNTAGGED_TAG_FILTER@ {
        e.tags.len() == 0
    } else {
        has_slug(e.tags, tag)
    }) != excluded)
}

/// `contains_ci`, computed.
fn contains_ci_of(value: &str, filter: &str) -> (r: bool)
    ensures
        r == contains_ci(value@, filter@),
{
    let v = to_lowercase(value);
    let t = trim_str(filter);
    let f = to_lowercase(t.as_str());
    str_contains(v.as_str(), f.as_str())
}

fn negated_of(filter: &str) -> (r: (bool, String))
    ensures
        (r.0, r.1@) == negated(filter@),
{
    proof {
        reveal_strlit("!");
    }
    match strip_prefix_str(filter, "!") {
        Some(rest) => (true, rest),
        None => (false, filter.to_owned()),
    }
}

fn has_user_tag_of(e: &EntryRow, slug: &str) -> (r: bool)
    ensures
        r == has_user_tag(e@, slug@),
{
    let ghost av = access_view(e.access@);
    let mut i: usize = 0;
    while i < e.access.len()
        invariant
            i <= e.access@.len(),
            av == e@.access,
            forall|k: int|
                0 <= k < i ==> !((#[trigger] av[k]).target_kind != "team"@ && has_slug(av[k].tags, slug@)),
        decreases e.access.len() - i,
    {
        assert(av[i as int] == e.access@[i as int]@);
        if !str_eq(e.access[i].target_kind.as_str(), "team") && slug_listed(&e.access[i].tags, slug) {
            return true;
        }
        i = i + 1;
    }
    false
}

fn shared_with_of(e: &EntryRow, filter: &str) -> (r: bool)
    ensures
        r == shared_with(e@, filter@),
{
    let ghost av = access_view(e.access@);
    let mut i: usize = 0;
    while i < e.access.len()
        invariant
            i <= e.access@.len(),
            av == e@.access,
            forall|k: int| 0 <= k < i ==> !contains_ci((#[trigger] av[k]).shared_to, filter@),
        decreases e.access.len() - i,
    {
        assert(av[i as int] == e.access@[i as int]@);
        if contains_ci_of(e.access[i].shared_to.as_str(), filter) {
            return true;
        }
        i = i + 1;
    }
    false
}

fn permitted_of(e: &EntryRow, filter: &str) -> (r: bool)
    ensures
        r == permitted(e@, filter@),
{
    let ghost av = access_view(e.access@);
    let mut i: usize = 0;
    while i < e.access.len()
        invariant
            i <= e.access@.len(),
            av == e@.access,
            forall|k: int| 0 <= k < i ==> !contains_ci((#[trigger] av[k]).permissions, filter@),
        decreases e.access.len() - i,
    {
        assert(av[i as int] == e.access@[i as int]@);
        if contains_ci_of(e.access[i].permissions.as_str(), filter) {
            return true;
        }
        i = i + 1;
    }
    false
}

fn shown_of(e: &EntryRow, o: &ListOptions) -> (r: bool)
    ensures
        r == shown(e@, o@),
{
    let (excluded, tag) = negated_of(o.tag);
    let (exclude_user_tag, user_tag) = negated_of(o.user_tag);
    let user_ok = user_tag.as_str().is_empty() || has_user_tag_of(e, user_tag.as_str())
        != exclude_user_tag;
    let access_ok = o.include_inaccessible || e.is_accessible;
    let place_ok = o.all || str_eq(e.parent_uid.as_str(), o.folder);
    let name_ok = contains_ci_of(e.name.as_str(), o.name);
    let path_ok = contains_ci_of(e.folder_path.as_str(), o.path);
    let shared_ok = trim_str(o.shared_to).as_str().is_empty() || shared_with_of(e, o.shared_to);
    let permission_ok = trim_str(o.permission).as_str().is_empty() || permitted_of(e, o.permission);
    let tag_ok = if tag.as_str().is_empty() {
        true
    } else {
        let tagged = if str_eq(tag.as_str(), UNTAGGED_TAG_FILTER) {
            e.tags.len() == 0
        } else {
            slug_listed(&e.tags, tag.as_str())
        };
        tagged != excluded
    };
    user_ok && access_ok && place_ok && name_ok && path_ok && shared_ok && permission_ok && tag_ok
}

} // verus!

verus! {

/// Three-way comparison of character sequences: -1, 0 or 1.
pub open spec fn seq_order(a: Seq<char>, b: Seq<char>) -> int {
    if seq_lt(a, b) {
        -1
    } else if a == b {
        0
    } else {
        1
    }
}

pub open spec fn int_order(a: int, b: int) -> int {
    if a < b {
        -1
    } else if a == b {
        0
    } else {
        1
    }
}

/// The addressees (or permissions) of an entry's grants, in lower case.
pub open spec fn lowered(s: Seq<AccessView>, shared: bool) -> Seq<Seq<char>> {
    s.map_values(
        |a: AccessView|
            lowercase_of(
                if shared {
                    a.shared_to
                } else {
                    a.permissions
                },
            ),
    )
}

/// Lexicographic three-way comparison of two lists of strings.
pub open spec fn list_order(a: Seq<Seq<char>>, b: Seq<Seq<char>>) -> int
    decreases a.len(),
{
    if a.len() == 0 {
        if b.len() == 0 {
            0
        } else {
            -1
        }
    } else if b.len() == 0 {
        1
    } else if seq_order(a[0], b[0]) != 0 {
        seq_order(a[0], b[0])
    } else {
        list_order(a.drop_first(), b.drop_first())
    }
}

/// The comparison of the chosen column; names (ignoring case) by default.
pub open spec fn column_order(a: EntryView, b: EntryView, sort: Seq<char>) -> int {
    if sort == "path"@ {
        seq_order(lowercase_of(a.folder_path), lowercase_of(b.folder_path))
    } else if sort == "type"@ {
        seq_order(lowercase_of(a.item_type), lowercase_of(b.item_type))
    } else if sort == "modified"@ {
        int_order(a.modified_ms as int, b.modified_ms as int)
    } else if sort == "attachments"@ {
        int_order(a.attachment_count as int, b.attachment_count as int)
    } else if sort == "size"@ {
        int_order(a.size_bytes as int, b.size_bytes as int)
    } else if sort == "shared"@ {
        list_order(lowered(a.access, true), lowered(b.access, true))
    } else if sort == "permission"@ {
        list_order(lowered(a.access, false), lowered(b.access, false))
    } else {
        seq_order(lowercase_of(a.name), lowercase_of(b.name))
    }
}

/// The column comparison, ties broken by uid and then parent uid.
pub open spec fn entry_order(a: EntryView, b: EntryView, sort: Seq<char>) -> int {
    if column_order(a, b, sort) != 0 {
        column_order(a, b, sort)
    } else if seq_order(a.uid, b.uid) != 0 {
        seq_order(a.uid, b.uid)
    } else {
        seq_order(a.parent_uid, b.parent_uid)
    }
}

/// The order of the listing: ascending, or reversed when `descending`.
pub open spec fn listing_order(sort: Seq<char>, descending: bool) -> spec_fn(EntryView, EntryView) -> bool {
    |a: EntryView, b: EntryView|
        if descending {
            entry_order(a, b, sort) > 0
        } else {
            entry_order(a, b, sort) < 0
        }
}

fn str_order(a: &str, b: &str) -> (r: i8)
    ensures
        r as int == seq_order(a@, b@),
{
    if string_lt(a, b) {
        -1
    } else if str_eq(a, b) {
        0
    } else {
        1
    }
}

fn lowered_order(a: &str, b: &str) -> (r: i8)
    ensures
        r as int == seq_order(lowercase_of(a@), lowercase_of(b@)),
{
    let x = to_lowercase(a);
    let y = to_lowercase(b);
    str_order(x.as_str(), y.as_str())
}

fn int_order_of(a: i64, b: i64) -> (r: i8)
    ensures
        r as int == int_order(a as int, b as int),
{
    if a < b {
        -1
    } else if a == b {
        0
    } else {
        1
    }
}

fn grants_order(a: &Vec<AccessRow>, b: &Vec<AccessRow>, shared: bool) -> (r: i8)
    ensures
        r as int == list_order(lowered(access_view(a@), shared), lowered(access_view(b@), shared)),
{
    let ghost la = lowered(access_view(a@), shared);
    let ghost lb = lowered(access_view(b@), shared);
    let mut i: usize = 0;
    assert(la.skip(0) == la && lb.skip(0) == lb);
    while i < a.len() && i < b.len()
        invariant
            la == lowered(access_view(a@), shared),
            lb == lowered(access_view(b@), shared),
            i <= a@.len(),
            i <= b@.len(),
            list_order(la, lb) == list_order(la.skip(i as int), lb.skip(i as int)),
        decreases a.len() - i,
    {
        let c = if shared {
            lowered_order(a[i].shared_to.as_str(), b[i].shared_to.as_str())
        } else {
            lowered_order(a[i].permissions.as_str(), b[i].permissions.as_str())
        };
        proof {
            assert(la.skip(i as int)[0] == la[i as int]);
            assert(lb.skip(i as int)[0] == lb[i as int]);
            assert(la.skip(i as int).drop_first() == la.skip(i + 1));
            assert(lb.skip(i as int).drop_first() == lb.skip(i + 1));
        }
        if c != 0 {
            return c;
        }
        i = i + 1;
    }
    if i < a.len() {
        1
    } else if i < b.len() {
        -1
    } else {
        0
    }
}

fn column_order_of(a: &EntryRow, b: &EntryRow, sort: &str) -> (r: i8)
    ensures
        r as int == column_order(a@, b@, sort@),
{
    if str_eq(sort, "path") {
        lowered_order(a.folder_path.as_str(), b.folder_path.as_str())
    } else if str_eq(sort, "type") {
        lowered_order(a.item_type.as_str(), b.item_type.as_str())
    } else if str_eq(sort, "modified") {
        int_order_of(a.modified_ms, b.modified_ms)
    } else if str_eq(sort, "attachments") {
        int_order_of(a.attachment_count as i64, b.attachment_count as i64)
    } else if str_eq(sort, "size") {
        int_order_of(a.size_bytes, b.size_bytes)
    } else if str_eq(sort, "shared") {
        grants_order(&a.access, &b.access, true)
    } else if str_eq(sort, "permission") {
        grants_order(&a.access, &b.access, false)
    } else {
        lowered_order(a.name.as_str(), b.name.as_str())
    }
}

fn listed_before(a: &EntryRow, b: &EntryRow, sort: &str, descending: bool) -> (r: bool)
    ensures
        r == (listing_order(sort@, descending))(a@, b@),
{
    let c = column_order_of(a, b, sort);
    let o = if c != 0 {
        c
    } else {
        let u = str_order(a.uid.as_str(), b.uid.as_str());
        if u != 0 {
            u
        } else {
            str_order(a.parent_uid.as_str(), b.parent_uid.as_str())
        }
    };
    if descending {
        o > 0
    } else {
        o < 0
    }
}

} // verus!

verus! {

/// The grants with their persons resolved.
pub open spec fn resolved_grants(
    grants: Seq<(Seq<char>, AccessView)>,
    ids: Seq<(Seq<char>, Option<Seq<char>>)>,
    directory_tags: Seq<TagView>,
) -> Seq<(Seq<char>, AccessView)> {
    grants.map_values(
        |g: (Seq<char>, AccessView)| (g.0, resolved(g.1, ids, directory_tags)),
    )
}

/// The entries listed: every folder but the vault root, then the records (one per
/// folder they are in).
pub open spec fn listed_entries(folders: Seq<EntryView>, records: Seq<EntryView>) -> Seq<EntryView> {
    folders.filter_map(
        |f: EntryView|
            if f.uid.len() > 0 {
                Some(f)
            } else {
                None
            },
    ) + records
}

pub open spec fn decorator(
    grants: Seq<(Seq<char>, AccessView)>,
    folders: Seq<EntryView>,
    tag_rows: Seq<(bool, Seq<char>, Seq<char>)>,
    keeper_tags: Seq<TagView>,
) -> spec_fn(EntryView) -> EntryView {
    |e: EntryView| decorated(e, grants, folders, tag_rows, keeper_tags)
}

pub open spec fn shown_only(o: ListOptionsView) -> spec_fn(EntryView) -> Option<EntryView> {
    |e: EntryView|
        if shown(e, o) {
            Some(e)
        } else {
            None
        }
}

/// The Keeper listing: entries with their inherited sharing context and tags, the
/// ones the options show, in the order they ask for.
pub open spec fn listing(
    folders: Seq<EntryView>,
    grants: Seq<(Seq<char>, AccessView)>,
    ids: Seq<(Seq<char>, Option<Seq<char>>)>,
    directory_tags: Seq<TagView>,
    keeper_tags: Seq<TagView>,
    tag_rows: Seq<(bool, Seq<char>, Seq<char>)>,
    records: Seq<EntryView>,
    o: ListOptionsView,
) -> Seq<EntryView> {
    let rg = resolved_grants(grants, ids, directory_tags);
    sort_by(
        listed_entries(folders, records).map_values(decorator(rg, folders, tag_rows, keeper_tags)).filter_map(
            shown_only(o),
        ),
        listing_order(o.sort, o.descending),
    )
}

fn insert_entry(s: &mut Vec<EntryRow>, x: EntryRow, sort: &str, descending: bool)
    ensures
        entries_view(final(s)@) == insert_by(entries_view(old(s)@), x@, listing_order(sort@, descending)),
{
    let ghost sv = entries_view(s@);
    let ghost lt = listing_order(sort@, descending);
    let mut j: usize = s.len();
    while j > 0 && listed_before(&x, &s[j - 1], sort, descending)
        invariant
            j <= s@.len(),
            sv == entries_view(s@),
            lt == listing_order(sort@, descending),
            forall|k: int| j <= k < sv.len() ==> lt(x@, #[trigger] sv[k]),
        decreases j,
    {
        j = j - 1;
    }
    proof {
        if j > 0 {
            assert(sv[j - 1] == s@[j - 1]@);
        }
        lemma_insert_by_at(sv, x@, lt, j as int);
    }
    let ghost xv = x@;
    s.insert(j, x);
    assert(entries_view(s@) =~= sv.take(j as int) + seq![xv] + sv.skip(j as int));
}

fn duplicate_access(s: &Vec<AccessRow>) -> (r: Vec<AccessRow>)
    ensures
        access_view(r@) == access_view(s@),
{
    let mut r: Vec<AccessRow> = Vec::new();
    let mut i: usize = 0;
    while i < s.len()
        invariant
            i <= s@.len(),
            r@.len() == i,
            forall|k: int| 0 <= k < i ==> (#[trigger] r@[k])@ == s@[k]@,
        decreases s.len() - i,
    {
        r.push(s[i].duplicate());
        i = i + 1;
    }
    assert(access_view(r@) =~= access_view(s@));
    r
}

impl EntryRow {
    pub fn duplicate(&self) -> (r: EntryRow)
        ensures
            r@ == self@,
    {
        EntryRow {
            uid: self.uid.clone(),
            is_folder: self.is_folder,
            name: self.name.clone(),
            item_type: self.item_type.clone(),
            folder_path: self.folder_path.clone(),
            parent_uid: self.parent_uid.clone(),
            is_accessible: self.is_accessible,
            modified: self.modified.clone(),
            modified_ms: self.modified_ms,
            attachment_count: self.attachment_count,
            size_bytes: self.size_bytes,
            access: duplicate_access(&self.access),
            tags: duplicate_tags(&self.tags),
        }
    }
}

fn listed_entries_of(folders: &Vec<EntryRow>, records: &Vec<EntryRow>) -> (r: Vec<EntryRow>)
    ensures
        entries_view(r@) == listed_entries(entries_view(folders@), entries_view(records@)),
{
    let ghost fv = entries_view(folders@);
    let mut r: Vec<EntryRow> = Vec::new();
    let mut i: usize = 0;
    while i < folders.len()
        invariant
            i <= folders@.len(),
            fv == entries_view(folders@),
            entries_view(r@) == fv.take(i as int).filter_map(
                |f: EntryView|
                    if f.uid.len() > 0 {
                        Some(f)
                    } else {
                        None
                    },
            ),
        decreases folders.len() - i,
    {
        let ghost t = fv.take(i + 1);
        assert(t.drop_last() == fv.take(i as int));
        assert(t.last() == folders@[i as int]@);
        if !folders[i].uid.as_str().is_empty() {
            let ghost before = entries_view(r@);
            r.push(folders[i].duplicate());
            assert(entries_view(r@) =~= before.push(folders@[i as int]@));
        }
        i = i + 1;
    }
    assert(fv.take(folders@.len() as int) == fv);
    let ghost head = entries_view(r@);
    let mut j: usize = 0;
    while j < records.len()
        invariant
            j <= records@.len(),
            entries_view(r@) == head + entries_view(records@).take(j as int),
        decreases records.len() - j,
    {
        let ghost before = entries_view(r@);
        r.push(records[j].duplicate());
        assert(entries_view(r@) =~= before.push(records@[j as int]@));
        assert(entries_view(records@).take(j + 1) =~= entries_view(records@).take(j as int).push(records@[j as int]@));
        assert(entries_view(r@) =~= head + entries_view(records@).take(j + 1));
        j = j + 1;
    }
    assert(entries_view(records@).take(records@.len() as int) == entries_view(records@));
    r
}

fn decorate_and_select(
    base: &Vec<EntryRow>,
    resolved: &Vec<(String, AccessRow)>,
    folders: &Vec<EntryRow>,
    tag_rows: &Vec<(bool, String, String)>,
    keeper_tags: &Vec<Tag>,
    options: &ListOptions,
) -> (r: Vec<EntryRow>)
    ensures
        entries_view(r@) == sort_by(
            entries_view(base@).map_values(
                decorator(
                    grants_view(resolved@),
                    entries_view(folders@),
                    tag_rows_view(tag_rows@),
                    tags_view(keeper_tags@),
                ),
            ).filter_map(shown_only(options@)),
            listing_order(options.sort@, options.descending),
        ),
{
    let ghost all = entries_view(base@).map_values(
        decorator(
            grants_view(resolved@),
            entries_view(folders@),
            tag_rows_view(tag_rows@),
            tags_view(keeper_tags@),
        ),
    );
    let ghost lt = listing_order(options.sort@, options.descending);
    let ghost keep = shown_only(options@);
    let mut out: Vec<EntryRow> = Vec::new();
    let mut i: usize = 0;
    while i < base.len()
        invariant
            i <= base@.len(),
            all == entries_view(base@).map_values(
                decorator(
                    grants_view(resolved@),
                    entries_view(folders@),
                    tag_rows_view(tag_rows@),
                    tags_view(keeper_tags@),
                ),
            ),
            lt == listing_order(options.sort@, options.descending),
            keep == shown_only(options@),
            entries_view(out@) == sort_by(all.take(i as int).filter_map(keep), lt),
        decreases base.len() - i,
    {
        let ghost t = all.take(i + 1);
        assert(t.drop_last() == all.take(i as int));
        let d = decorate(&base[i], resolved, folders, tag_rows, keeper_tags);
        assert(t.last() == d@);
        let ghost prev = all.take(i as int).filter_map(keep);
        if shown_of(&d, options) {
            assert(t.filter_map(keep) == prev + seq![d@]);
            assert((prev + seq![d@]).drop_last() == prev);
            assert((prev + seq![d@]).last() == d@);
            insert_entry(&mut out, d, options.sort, options.descending);
        } else {
            assert(t.filter_map(keep) == prev);
        }
        i = i + 1;
    }
    assert(all.take(base@.len() as int) == all);
    out
}

/// The Keeper listing over the stored rows: `folders` (every folder, the vault root
/// included), `grants` (folder uid and grant, ordered by addressee), `identities`
/// (directory addresses with the slugs of their persons' tags), the directory and
/// Keeper tags, `tag_rows` (tag assignments) and `records` (one row per record and
/// folder). Each entry gets the sharing context inherited from its folders and its
/// tags; the entries the options show are returned in the order they ask for.
pub fn list(
    folders: &Vec<EntryRow>,
    grants: &Vec<(String, AccessRow)>,
    identities: &Vec<(String, Option<String>)>,
    directory_tags: &Vec<Tag>,
    keeper_tags: &Vec<Tag>,
    tag_rows: &Vec<(bool, String, String)>,
    records: &Vec<EntryRow>,
    options: &ListOptions,
) -> (r: Vec<EntryRow>)
    ensures
        entries_view(r@) == listing(
            entries_view(folders@),
            grants_view(grants@),
            identities_view(identities@),
            tags_view(directory_tags@),
            tags_view(keeper_tags@),
            tag_rows_view(tag_rows@),
            entries_view(records@),
            options@,
        ),
{
    let resolved = resolve_grants(grants, identities, directory_tags);
    assert(grants_view(resolved@) =~= resolved_grants(
        grants_view(grants@),
        identities_view(identities@),
        tags_view(directory_tags@),
    ));
    let base = listed_entries_of(folders, records);
    decorate_and_select(&base, &resolved, folders, tag_rows, keeper_tags, options)
}

} // verus!

verus! {

/// How many entries are accessible (and, when `shares_only`, shared folders; when
/// `with_uid`, have a uid).
pub open spec fn accessible_count(entries: Seq<EntryView>, shares_only: bool, with_uid: bool) -> nat
    decreases entries.len(),
{
    if entries.len() == 0 {
        0
    } else {
        let e = entries.last();
        accessible_count(entries.drop_last(), shares_only, with_uid) + if e.is_accessible && (!shares_only
            || is_share_type(e.item_type)) && (!with_uid || e.uid.len() > 0) {
            1nat
        } else {
            0nat
        }
    }
}

/// Whether a folder uid belongs to an accessible folder.
pub open spec fn accessible_uid(folders: Seq<EntryView>, uid: Seq<char>) -> bool {
    exists|i: int| 0 <= i < folders.len() && (#[trigger] folders[i]).uid == uid && folders[i].is_accessible
}

/// How many different values a sequence holds.
pub open spec fn distinct_count(s: Seq<Seq<char>>) -> nat
    decreases s.len(),
{
    if s.len() == 0 {
        0
    } else {
        distinct_count(s.drop_last()) + if s.drop_last().contains(s.last()) {
            0nat
        } else {
            1nat
        }
    }
}

/// The grants of accessible folders: whom each shares with, or (`managed`) the folders
/// whose grants include a manage permission.
pub open spec fn granted_keys(folders: Seq<EntryView>, grants: Seq<(Seq<char>, AccessView)>, managed: bool) -> Seq<
    Seq<char>,
>
    decreases grants.len(),
{
    if grants.len() == 0 {
        seq![]
    } else {
        let prev = granted_keys(folders, grants.drop_last(), managed);
        let g = grants.last();
        if !accessible_uid(folders, g.0) {
            prev
        } else if managed {
            if has_infix(crate::local_files::ascii_lowercase(g.1.permissions), "manage"@) {
                prev.push(g.0)
            } else {
                prev
            }
        } else {
            prev.push(g.1.shared_to)
        }
    }
}

fn accessible_count_of(entries: &Vec<EntryRow>, shares_only: bool, with_uid: bool) -> (r: u64)
    ensures
        r == accessible_count(entries_view(entries@), shares_only, with_uid),
{
    let ghost ev = entries_view(entries@);
    let mut n: u64 = 0;
    let mut k: usize = 0;
    while k < entries.len()
        invariant
            k <= entries@.len(),
            ev == entries_view(entries@),
            n == accessible_count(ev.take(k as int), shares_only, with_uid),
            n <= k,
        decreases entries.len() - k,
    {
        assert(ev.take(k + 1).drop_last() =~= ev.take(k as int));
        assert(ev.take(k + 1).last() == entries@[k as int]@);
        let e = &entries[k];
        if e.is_accessible && (!shares_only || is_share_type_of(e.item_type.as_str())) && (!with_uid
            || !e.uid.as_str().is_empty()) {
            n = n + 1;
        }
        k = k + 1;
    }
    assert(ev.take(ev.len() as int) =~= ev);
    n
}

fn accessible_uid_of(folders: &Vec<EntryRow>, uid: &str) -> (r: bool)
    ensures
        r == accessible_uid(entries_view(folders@), uid@),
{
    let ghost fv = entries_view(folders@);
    let mut k: usize = 0;
    while k < folders.len()
        invariant
            k <= folders@.len(),
            fv == entries_view(folders@),
            forall|m: int| 0 <= m < k ==> !((#[trigger] fv[m]).uid == uid@ && fv[m].is_accessible),
        decreases folders.len() - k,
    {
        assert(fv[k as int] == folders@[k as int]@);
        if folders[k].is_accessible && str_eq(folders[k].uid.as_str(), uid) {
            return true;
        }
        k = k + 1;
    }
    false
}

fn distinct_count_of(s: &Vec<String>) -> (r: u64)
    ensures
        r == distinct_count(strings_view(s@)),
{
    let ghost sv = strings_view(s@);
    let mut n: u64 = 0;
    let mut k: usize = 0;
    while k < s.len()
        invariant
            k <= s@.len(),
            sv == strings_view(s@),
            n == distinct_count(sv.take(k as int)),
            n <= k,
        decreases s.len() - k,
    {
        let ghost t = sv.take(k + 1);
        proof {
            assert(t.drop_last() =~= sv.take(k as int));
            assert(t.last() == s@[k as int]@);
        }
        let mut seen = false;
        let mut j: usize = 0;
        while j < k
            invariant
                j <= k < s@.len(),
                sv == strings_view(s@),
                seen == exists|m: int| 0 <= m < j && #[trigger] sv[m] == sv[k as int],
            decreases k - j,
        {
            assert(sv[j as int] == s@[j as int]@);
            assert(sv[k as int] == s@[k as int]@);
            if str_eq(s[j].as_str(), s[k].as_str()) {
                seen = true;
            }
            j = j + 1;
        }
        proof {
            if seen {
                let m = choose|m: int| 0 <= m < k && #[trigger] sv[m] == sv[k as int];
                assert(sv.take(k as int)[m] == sv[m]);
            }
            if sv.take(k as int).contains(sv[k as int]) {
                let m = choose|m: int| 0 <= m < k && sv.take(k as int)[m] == sv[k as int];
                assert(sv[m] == sv.take(k as int)[m]);
            }
        }
        if !seen {
            n = n + 1;
        }
        k = k + 1;
    }
    assert(sv.take(sv.len() as int) =~= sv);
    n
}

fn granted_keys_of(folders: &Vec<EntryRow>, grants: &Vec<(String, AccessRow)>, managed: bool) -> (r: Vec<String>)
    ensures
        strings_view(r@) == granted_keys(entries_view(folders@), grants_view(grants@), managed),
{
    let ghost fv = entries_view(folders@);
    let ghost gv = grants_view(grants@);
    let mut out: Vec<String> = Vec::new();
    let mut k: usize = 0;
    while k < grants.len()
        invariant
            k <= grants@.len(),
            fv == entries_view(folders@),
            gv == grants_view(grants@),
            strings_view(out@) == granted_keys(fv, gv.take(k as int), managed),
        decreases grants.len() - k,
    {
        assert(gv.take(k + 1).drop_last() =~= gv.take(k as int));
        assert(gv.take(k + 1).last() == (grants@[k as int].0@, grants@[k as int].1@));
        let ghost before = strings_view(out@);
        let (uid, access) = &grants[k];
        if accessible_uid_of(folders, uid.as_str()) {
            if managed {
                let lower = crate::local_files::to_ascii_lowercase(access.permissions.as_str());
                if crate::text::str_contains(lower.as_str(), "manage") {
                    out.push(uid.clone());
                    assert(strings_view(out@) =~= before.push(uid@));
                }
            } else {
                out.push(access.shared_to.clone());
                assert(strings_view(out@) =~= before.push(access.shared_to@));
            }
        }
        k = k + 1;
    }
    assert(gv.take(gv.len() as int) =~= gv);
    out
}

/// The Keeper overview counts from the stored inventory: accessible shared folders,
/// accessible folders with a uid, accessible records, the different identities that
/// accessible folders are shared with, the accessible folders with a manage grant, and
/// when the last refresh completed (empty when never).
pub fn summary(
    folders: &Vec<EntryRow>,
    grants: &Vec<(String, AccessRow)>,
    records: &Vec<EntryRow>,
    last_sync: Option<String>,
) -> (r: Summary)
    ensures
        r.shared_folders == accessible_count(entries_view(folders@), true, false),
        r.folders == accessible_count(entries_view(folders@), false, true),
        r.records == accessible_count(entries_view(records@), false, false),
        r.shared_with == distinct_count(granted_keys(entries_view(folders@), grants_view(grants@), false)),
        r.managed_folders == distinct_count(granted_keys(entries_view(folders@), grants_view(grants@), true)),
        r.completed_at@ == match last_sync {
            Some(s) => s@,
            None => Seq::<char>::empty(),
        },
{
    let shared = granted_keys_of(folders, grants, false);
    let managed = granted_keys_of(folders, grants, true);
    Summary {
        shared_folders: accessible_count_of(folders, true, false),
        folders: accessible_count_of(folders, false, true),
        records: accessible_count_of(records, false, false),
        shared_with: distinct_count_of(&shared),
        managed_folders: distinct_count_of(&managed),
        completed_at: match last_sync {
            Some(s) => s,
            None => String::new(),
        },
    }
}

pub open spec fn location_view(l: FolderLocation) -> (Seq<char>, Seq<char>) {
    (l.uid@, l.path@)
}

pub open spec fn locations_view(s: Seq<FolderLocation>) -> Seq<(Seq<char>, Seq<char>)> {
    s.map_values(|l: FolderLocation| location_view(l))
}

/// Location order: by path, ignoring ASCII case.
pub open spec fn location_order() -> spec_fn((Seq<char>, Seq<char>), (Seq<char>, Seq<char>)) -> bool {
    |a: (Seq<char>, Seq<char>), b: (Seq<char>, Seq<char>)|
        seq_lt(crate::local_files::ascii_lowercase(a.1), crate::local_files::ascii_lowercase(b.1))
}

/// The accessible folders and their paths, in stored order.
pub open spec fn accessible_locations(folders: Seq<EntryView>) -> Seq<(Seq<char>, Seq<char>)>
    decreases folders.len(),
{
    if folders.len() == 0 {
        seq![]
    } else {
        let prev = accessible_locations(folders.drop_last());
        if folders.last().is_accessible {
            prev.push((folders.last().uid, folders.last().folder_path))
        } else {
            prev
        }
    }
}

fn insert_location(s: &mut Vec<FolderLocation>, x: FolderLocation)
    ensures
        locations_view(final(s)@) == insert_by(locations_view(old(s)@), location_view(x), location_order()),
{
    let ghost sv = locations_view(s@);
    let ghost xv = location_view(x);
    let lx = crate::local_files::to_ascii_lowercase(x.path.as_str());
    let mut j: usize = s.len();
    while j > 0 && string_lt(lx.as_str(), crate::local_files::to_ascii_lowercase(s[j - 1].path.as_str()).as_str())
        invariant
            j <= s@.len(),
            sv == locations_view(s@),
            xv == location_view(x),
            lx@ == crate::local_files::ascii_lowercase(x.path@),
            forall|k: int| j <= k < sv.len() ==> (location_order())(xv, #[trigger] sv[k]),
        decreases j,
    {
        assert(sv[j - 1] == location_view(s@[j - 1]));
        j = j - 1;
    }
    proof {
        if j > 0 {
            assert(sv[j - 1] == location_view(s@[j - 1]));
        }
        lemma_insert_by_at(sv, xv, location_order(), j as int);
    }
    s.insert(j, x);
    assert(locations_view(s@) =~= sv.take(j as int) + seq![xv] + sv.skip(j as int));
}

/// The accessible folders with their paths, ordered by path ignoring ASCII case
/// (folders whose paths compare equal keep their stored order).
pub fn folder_locations(folders: &Vec<EntryRow>) -> (r: Vec<FolderLocation>)
    ensures
        locations_view(r@) == sort_by(accessible_locations(entries_view(folders@)), location_order()),
{
    let ghost fv = entries_view(folders@);
    let mut out: Vec<FolderLocation> = Vec::new();
    let mut k: usize = 0;
    while k < folders.len()
        invariant
            k <= folders@.len(),
            fv == entries_view(folders@),
            locations_view(out@) == sort_by(accessible_locations(fv.take(k as int)), location_order()),
        decreases folders.len() - k,
    {
        assert(fv.take(k + 1).drop_last() =~= fv.take(k as int));
        assert(fv.take(k + 1).last() == folders@[k as int]@);
        if folders[k].is_accessible {
            let ghost prev = accessible_locations(fv.take(k as int));
            proof {
                assert(accessible_locations(fv.take(k + 1)).drop_last() =~= prev);
            }
            insert_location(&mut out, FolderLocation { uid: folders[k].uid.clone(), path: folders[k].folder_path.clone() });
        }
        k = k + 1;
    }
    assert(fv.take(fv.len() as int) =~= fv);
    out
}

} // verus!

verus! {

/// The values of a sequence, each once, in order of first appearance.
pub open spec fn first_occurrences(s: Seq<Seq<char>>) -> Seq<Seq<char>>
    decreases s.len(),
{
    if s.len() == 0 {
        seq![]
    } else {
        let prev = first_occurrences(s.drop_last());
        if s.drop_last().contains(s.last()) {
            prev
        } else {
            prev.push(s.last())
        }
    }
}

fn distinct_values(v: &Vec<String>) -> (r: Vec<String>)
    ensures
        strings_view(r@) == first_occurrences(strings_view(v@)),
{
    let ghost sv = strings_view(v@);
    let mut out: Vec<String> = Vec::new();
    let mut k: usize = 0;
    while k < v.len()
        invariant
            k <= v@.len(),
            sv == strings_view(v@),
            strings_view(out@) == first_occurrences(sv.take(k as int)),
        decreases v.len() - k,
    {
        let ghost t = sv.take(k + 1);
        proof {
            assert(t.drop_last() =~= sv.take(k as int));
            assert(t.last() == v@[k as int]@);
        }
        let mut seen = false;
        let mut j: usize = 0;
        while j < k
            invariant
                j <= k < v@.len(),
                sv == strings_view(v@),
                seen == exists|m: int| 0 <= m < j && #[trigger] sv[m] == sv[k as int],
            decreases k - j,
        {
            assert(sv[j as int] == v@[j as int]@);
            assert(sv[k as int] == v@[k as int]@);
            if str_eq(v[j].as_str(), v[k].as_str()) {
                seen = true;
            }
            j = j + 1;
        }
        proof {
            if seen {
                let m = choose|m: int| 0 <= m < k && #[trigger] sv[m] == sv[k as int];
                assert(sv.take(k as int)[m] == sv[m]);
            }
            if sv.take(k as int).contains(sv[k as int]) {
                let m = choose|m: int| 0 <= m < k && sv.take(k as int)[m] == sv[k as int];
                assert(sv[m] == sv.take(k as int)[m]);
            }
        }
        if !seen {
            let ghost before = strings_view(out@);
            out.push(v[k].clone());
            assert(strings_view(out@) =~= before.push(v@[k as int]@));
        }
        k = k + 1;
    }
    assert(sv.take(sv.len() as int) =~= sv);
    out
}

/// The folders and records a tag change applies to, each once; at least one is needed.
pub fn tag_targets(folder_uids: &Vec<String>, record_uids: &Vec<String>) -> (r: Result<(Vec<String>, Vec<String>), String>)
    ensures
        folder_uids@.len() == 0 && record_uids@.len() == 0 ==> (r matches Err(m) && m@
            == "Select at least one Keeper folder or record"@),
        !(folder_uids@.len() == 0 && record_uids@.len() == 0) ==> (r matches Ok((f, rs)) && strings_view(f@)
            == first_occurrences(strings_view(folder_uids@)) && strings_view(rs@) == first_occurrences(
            strings_view(record_uids@),
        )),
{
    if folder_uids.len() == 0 && record_uids.len() == 0 {
        return Err("Select at least one Keeper folder or record".to_owned());
    }
    Ok((distinct_values(folder_uids), distinct_values(record_uids)))
}

} // verus!

verus! {

proof fn lemma_seq_order(x: Seq<char>, y: Seq<char>, z: Seq<char>)
    ensures
        seq_order(x, x) == 0,
        seq_order(x, y) == -seq_order(y, x),
        seq_order(x, y) <= 0 && seq_order(y, z) <= 0 ==> seq_order(x, z) <= 0,
        seq_order(x, y) == 0 <==> x == y,
{
    crate::text::lemma_seq_lt_irreflexive(x);
    crate::text::lemma_seq_lt_irreflexive(y);
    crate::text::lemma_seq_lt_total(x, y);
    if seq_lt(x, y) && seq_lt(y, x) {
        crate::text::lemma_seq_lt_transitive(x, y, x);
    }
    if seq_lt(x, y) && seq_lt(y, z) {
        crate::text::lemma_seq_lt_transitive(x, y, z);
    }
}

proof fn lemma_list_order(a: Seq<Seq<char>>, b: Seq<Seq<char>>, c: Seq<Seq<char>>)
    ensures
        list_order(a, a) == 0,
        list_order(a, b) == -list_order(b, a),
        list_order(a, b) <= 0 && list_order(b, c) <= 0 ==> list_order(a, c) <= 0,
    decreases a.len(),
{
    if a.len() > 0 {
        lemma_seq_order(a[0], a[0], a[0]);
        if b.len() > 0 && c.len() > 0 {
            lemma_seq_order(a[0], b[0], c[0]);
            lemma_seq_order(b[0], c[0], a[0]);
            lemma_seq_order(a[0], c[0], b[0]);
            lemma_list_order(a.drop_first(), b.drop_first(), c.drop_first());
        } else if b.len() > 0 {
            lemma_seq_order(a[0], b[0], b[0]);
            lemma_list_order(a.drop_first(), b.drop_first(), b.drop_first());
        } else {
            lemma_list_order(a.drop_first(), a.drop_first(), a.drop_first());
        }
    }
}

proof fn lemma_column_comparator(sort: Seq<char>)
    ensures
        crate::order::comparator(|a: EntryView, b: EntryView| column_order(a, b, sort)),
{
    let c = |a: EntryView, b: EntryView| column_order(a, b, sort);
    assert forall|a: EntryView| #[trigger] c(a, a) == 0 by {
        lemma_seq_order(lowercase_of(a.folder_path), lowercase_of(a.folder_path), lowercase_of(a.folder_path));
        lemma_seq_order(lowercase_of(a.item_type), lowercase_of(a.item_type), lowercase_of(a.item_type));
        lemma_seq_order(lowercase_of(a.name), lowercase_of(a.name), lowercase_of(a.name));
        lemma_list_order(lowered(a.access, true), lowered(a.access, true), lowered(a.access, true));
        lemma_list_order(lowered(a.access, false), lowered(a.access, false), lowered(a.access, false));
    }
    assert forall|a: EntryView, b: EntryView| #[trigger] c(a, b) == -c(b, a) by {
        lemma_seq_order(lowercase_of(a.folder_path), lowercase_of(b.folder_path), lowercase_of(b.folder_path));
        lemma_seq_order(lowercase_of(a.item_type), lowercase_of(b.item_type), lowercase_of(b.item_type));
        lemma_seq_order(lowercase_of(a.name), lowercase_of(b.name), lowercase_of(b.name));
        lemma_list_order(lowered(a.access, true), lowered(b.access, true), lowered(b.access, true));
        lemma_list_order(lowered(a.access, false), lowered(b.access, false), lowered(b.access, false));
    }
    assert forall|a: EntryView, b: EntryView, d: EntryView| #[trigger] c(a, b) <= 0 && #[trigger] c(b, d) <= 0 implies c(
        a,
        d,
    ) <= 0 by {
        lemma_seq_order(lowercase_of(a.folder_path), lowercase_of(b.folder_path), lowercase_of(d.folder_path));
        lemma_seq_order(lowercase_of(a.item_type), lowercase_of(b.item_type), lowercase_of(d.item_type));
        lemma_seq_order(lowercase_of(a.name), lowercase_of(b.name), lowercase_of(d.name));
        lemma_list_order(lowered(a.access, true), lowered(b.access, true), lowered(d.access, true));
        lemma_list_order(lowered(a.access, false), lowered(b.access, false), lowered(d.access, false));
    }
}

proof fn lemma_text_comparator(f: spec_fn(EntryView) -> Seq<char>)
    ensures
        crate::order::comparator(|a: EntryView, b: EntryView| seq_order(f(a), f(b))),
{
    let c = |a: EntryView, b: EntryView| seq_order(f(a), f(b));
    assert forall|a: EntryView| #[trigger] c(a, a) == 0 by {
        lemma_seq_order(f(a), f(a), f(a));
    }
    assert forall|a: EntryView, b: EntryView| #[trigger] c(a, b) == -c(b, a) by {
        lemma_seq_order(f(a), f(b), f(b));
    }
    assert forall|a: EntryView, b: EntryView, d: EntryView| #[trigger] c(a, b) <= 0 && #[trigger] c(b, d) <= 0 implies c(
        a,
        d,
    ) <= 0 by {
        lemma_seq_order(f(a), f(b), f(d));
    }
}

proof fn lemma_entry_comparator(sort: Seq<char>)
    ensures
        crate::order::comparator(|a: EntryView, b: EntryView| entry_order(a, b, sort)),
{
    let col = |a: EntryView, b: EntryView| column_order(a, b, sort);
    let uid = |a: EntryView, b: EntryView| seq_order(a.uid, b.uid);
    let parent = |a: EntryView, b: EntryView| seq_order(a.parent_uid, b.parent_uid);
    let ids = |a: EntryView, b: EntryView| if uid(a, b) != 0 {
        uid(a, b)
    } else {
        parent(a, b)
    };
    let all = |a: EntryView, b: EntryView| entry_order(a, b, sort);
    lemma_column_comparator(sort);
    lemma_text_comparator(|e: EntryView| e.uid);
    lemma_text_comparator(|e: EntryView| e.parent_uid);
    assert(uid =~= (|a: EntryView, b: EntryView| seq_order((|e: EntryView| e.uid)(a), (|e: EntryView| e.uid)(b))));
    assert(parent =~= (|a: EntryView, b: EntryView| seq_order(
        (|e: EntryView| e.parent_uid)(a),
        (|e: EntryView| e.parent_uid)(b),
    )));
    crate::order::lemma_then_comparator(uid, parent, ids);
    assert forall|a: EntryView, b: EntryView| #[trigger] all(a, b) == if col(a, b) != 0 {
        col(a, b)
    } else {
        ids(a, b)
    } by {}
    crate::order::lemma_then_comparator(col, ids, all);
}

/// The order of the Keeper listing is a strict weak order for every column and
/// direction.
proof fn lemma_listing_order(sort: Seq<char>, descending: bool)
    ensures
        crate::order::strict_weak(listing_order(sort, descending)),
{
    lemma_entry_comparator(sort);
    let all = |a: EntryView, b: EntryView| entry_order(a, b, sort);
    let lt = listing_order(sort, descending);
    assert forall|a: EntryView, b: EntryView| #[trigger] lt(a, b) == if descending {
        all(a, b) > 0
    } else {
        all(a, b) < 0
    } by {}
    crate::order::lemma_comparator_strict_weak(all, lt, descending);
}

/// The Keeper listing holds exactly the entries its options show, in the order of the
/// chosen column (ties by uid, then parent), reversed when descending.
pub proof fn law_listing_follows_the_chosen_order(
    folders: Seq<EntryView>,
    grants: Seq<(Seq<char>, AccessView)>,
    ids: Seq<(Seq<char>, Option<Seq<char>>)>,
    directory_tags: Seq<TagView>,
    keeper_tags: Seq<TagView>,
    tag_rows: Seq<(bool, Seq<char>, Seq<char>)>,
    records: Seq<EntryView>,
    o: ListOptionsView,
)
    ensures
        crate::order::sorted_by(
            listing(folders, grants, ids, directory_tags, keeper_tags, tag_rows, records, o),
            listing_order(o.sort, o.descending),
        ),
        listing(folders, grants, ids, directory_tags, keeper_tags, tag_rows, records, o).to_multiset() == listed_entries(
            folders,
            records,
        ).map_values(decorator(resolved_grants(grants, ids, directory_tags), folders, tag_rows, keeper_tags)).filter_map(
            shown_only(o),
        ).to_multiset(),
{
    let shown = listed_entries(folders, records).map_values(
        decorator(resolved_grants(grants, ids, directory_tags), folders, tag_rows, keeper_tags),
    ).filter_map(shown_only(o));
    lemma_listing_order(o.sort, o.descending);
    crate::order::lemma_sort_by_sorted(shown, listing_order(o.sort, o.descending));
    crate::order::lemma_sort_by_multiset(shown, listing_order(o.sort, o.descending));
}

} // verus!

verus! {

/// The entries a listing shows, before they are ordered.
pub open spec fn shown_entries(
    folders: Seq<EntryView>,
    grants: Seq<(Seq<char>, AccessView)>,
    ids: Seq<(Seq<char>, Option<Seq<char>>)>,
    directory_tags: Seq<TagView>,
    keeper_tags: Seq<TagView>,
    tag_rows: Seq<(bool, Seq<char>, Seq<char>)>,
    records: Seq<EntryView>,
    o: ListOptionsView,
) -> Seq<EntryView> {
    listed_entries(folders, records).map_values(
        decorator(resolved_grants(grants, ids, directory_tags), folders, tag_rows, keeper_tags),
    ).filter_map(shown_only(o))
}

/// The descending listing is the ascending one reversed, entry for entry, when no two
/// different shown entries tie on the column, the uid and the parent uid.
pub proof fn law_descending_listing_reverses_entries(
    folders: Seq<EntryView>,
    grants: Seq<(Seq<char>, AccessView)>,
    ids: Seq<(Seq<char>, Option<Seq<char>>)>,
    directory_tags: Seq<TagView>,
    keeper_tags: Seq<TagView>,
    tag_rows: Seq<(bool, Seq<char>, Seq<char>)>,
    records: Seq<EntryView>,
    o: ListOptionsView,
)
    requires
        forall|x: EntryView, y: EntryView|
            #![trigger shown_entries(folders, grants, ids, directory_tags, keeper_tags, tag_rows, records, o).contains(x), shown_entries(folders, grants, ids, directory_tags, keeper_tags, tag_rows, records, o).contains(y)]
            shown_entries(folders, grants, ids, directory_tags, keeper_tags, tag_rows, records, o).contains(x)
                && shown_entries(folders, grants, ids, directory_tags, keeper_tags, tag_rows, records, o).contains(y)
                && x != y ==> entry_order(x, y, o.sort) != 0,
    ensures
        listing(folders, grants, ids, directory_tags, keeper_tags, tag_rows, records, ListOptionsView { descending: true, ..o })
            == listing(
            folders,
            grants,
            ids,
            directory_tags,
            keeper_tags,
            tag_rows,
            records,
            ListOptionsView { descending: false, ..o },
        ).reverse(),
{
    let up = ListOptionsView { descending: false, ..o };
    let down = ListOptionsView { descending: true, ..o };
    assert(shown_only(up) =~= shown_only(o));
    assert(shown_only(down) =~= shown_only(o));
    let s = shown_entries(folders, grants, ids, directory_tags, keeper_tags, tag_rows, records, o);
    lemma_entry_comparator(o.sort);
    let lt = listing_order(o.sort, false);
    let gt = listing_order(o.sort, true);
    lemma_listing_order(o.sort, false);
    assert forall|x: EntryView, y: EntryView| #[trigger] gt(x, y) == lt(y, x) by {
        assert((|a: EntryView, b: EntryView| entry_order(a, b, o.sort))(x, y) == -(|a: EntryView, b: EntryView| entry_order(a, b, o.sort))(y, x));
    }
    assert forall|x: EntryView, y: EntryView| #![trigger s.contains(x), s.contains(y)] s.contains(x) && s.contains(y) && x != y implies lt(x, y) || lt(y, x) by {
        assert((|a: EntryView, b: EntryView| entry_order(a, b, o.sort))(x, y) == -(|a: EntryView, b: EntryView| entry_order(a, b, o.sort))(y, x));
    }
    crate::order::lemma_sort_reversed(s, lt, gt);
}

/// The uid and parent uid of each entry of a listing, in order.
pub open spec fn entry_keys(s: Seq<EntryView>) -> Seq<(Seq<char>, Seq<char>)> {
    s.map_values(|e: EntryView| (e.uid, e.parent_uid))
}

/// The descending listing shows the entries of the ascending one in reverse order:
/// their uids and parent uids, read from the end, are those of the ascending listing.
pub proof fn law_descending_listing_reverses(
    folders: Seq<EntryView>,
    grants: Seq<(Seq<char>, AccessView)>,
    ids: Seq<(Seq<char>, Option<Seq<char>>)>,
    directory_tags: Seq<TagView>,
    keeper_tags: Seq<TagView>,
    tag_rows: Seq<(bool, Seq<char>, Seq<char>)>,
    records: Seq<EntryView>,
    o: ListOptionsView,
)
    ensures
        entry_keys(listing(folders, grants, ids, directory_tags, keeper_tags, tag_rows, records, ListOptionsView { descending: true, ..o }))
            == entry_keys(
            listing(
                folders,
                grants,
                ids,
                directory_tags,
                keeper_tags,
                tag_rows,
                records,
                ListOptionsView { descending: false, ..o },
            ),
        ).reverse(),
{
    let up = ListOptionsView { descending: false, ..o };
    let down = ListOptionsView { descending: true, ..o };
    assert(shown_only(up) =~= shown_only(o));
    assert(shown_only(down) =~= shown_only(o));
    let s = shown_entries(folders, grants, ids, directory_tags, keeper_tags, tag_rows, records, o);
    lemma_entry_comparator(o.sort);
    let lt = listing_order(o.sort, false);
    let gt = listing_order(o.sort, true);
    let key = |e: EntryView| (e.uid, e.parent_uid);
    lemma_listing_order(o.sort, false);
    assert forall|x: EntryView, y: EntryView| #[trigger] gt(x, y) == lt(y, x) by {
        assert((|a: EntryView, b: EntryView| entry_order(a, b, o.sort))(x, y) == -(|a: EntryView, b: EntryView| entry_order(a, b, o.sort))(y, x));
    }
    assert forall|x: EntryView, y: EntryView|
        #![trigger s.contains(x), s.contains(y)]
        s.contains(x) && s.contains(y) && !lt(x, y) && !lt(y, x) implies key(x) == key(y) by {
        assert((|a: EntryView, b: EntryView| entry_order(a, b, o.sort))(x, y) == -(|a: EntryView, b: EntryView| entry_order(a, b, o.sort))(y, x));
        assert(entry_order(x, y, o.sort) == 0);
        assert(x.uid == y.uid && x.parent_uid == y.parent_uid);
    }
    crate::order::lemma_sort_reversed_keys(s, lt, gt, key);
    assert(entry_keys(sort_by(s, gt)) =~= sort_by(s, gt).map_values(key));
    assert(entry_keys(sort_by(s, lt)) =~= sort_by(s, lt).map_values(key));
}

/// A listing sorted by a column puts no entry after one with a greater value in that
/// column (a smaller one, when descending): modification time, attachment count and
/// size by number; name, folder path and type by their lower-case text.
pub proof fn law_listing_is_ordered_by_its_column(
    folders: Seq<EntryView>,
    grants: Seq<(Seq<char>, AccessView)>,
    ids: Seq<(Seq<char>, Option<Seq<char>>)>,
    directory_tags: Seq<TagView>,
    keeper_tags: Seq<TagView>,
    tag_rows: Seq<(bool, Seq<char>, Seq<char>)>,
    records: Seq<EntryView>,
    o: ListOptionsView,
    i: int,
    j: int,
)
    requires
        0 <= i < j < listing(folders, grants, ids, directory_tags, keeper_tags, tag_rows, records, o).len(),
    ensures
        ({
            let l = listing(folders, grants, ids, directory_tags, keeper_tags, tag_rows, records, o);
            let (x, y) = (l[i], l[j]);
            &&& o.sort == "size"@ ==> if o.descending {
                x.size_bytes >= y.size_bytes
            } else {
                x.size_bytes <= y.size_bytes
            }
            &&& o.sort == "modified"@ ==> if o.descending {
                x.modified_ms >= y.modified_ms
            } else {
                x.modified_ms <= y.modified_ms
            }
            &&& o.sort == "attachments"@ ==> if o.descending {
                x.attachment_count >= y.attachment_count
            } else {
                x.attachment_count <= y.attachment_count
            }
            &&& o.sort == "name"@ ==> if o.descending {
                !seq_lt(lowercase_of(x.name), lowercase_of(y.name))
            } else {
                !seq_lt(lowercase_of(y.name), lowercase_of(x.name))
            }
            &&& o.sort == "path"@ ==> if o.descending {
                !seq_lt(lowercase_of(x.folder_path), lowercase_of(y.folder_path))
            } else {
                !seq_lt(lowercase_of(y.folder_path), lowercase_of(x.folder_path))
            }
            &&& o.sort == "type"@ ==> if o.descending {
                !seq_lt(lowercase_of(x.item_type), lowercase_of(y.item_type))
            } else {
                !seq_lt(lowercase_of(y.item_type), lowercase_of(x.item_type))
            }
        }),
{
    reveal_strlit("size");
    reveal_strlit("modified");
    reveal_strlit("attachments");
    reveal_strlit("name");
    reveal_strlit("path");
    reveal_strlit("type");
    reveal_strlit("shared");
    reveal_strlit("permission");
    let l = listing(folders, grants, ids, directory_tags, keeper_tags, tag_rows, records, o);
    law_listing_follows_the_chosen_order(folders, grants, ids, directory_tags, keeper_tags, tag_rows, records, o);
    let lt = listing_order(o.sort, o.descending);
    assert(!lt(l[j], l[i]));
    assert(lt(l[j], l[i]) == if o.descending {
        entry_order(l[j], l[i], o.sort) > 0
    } else {
        entry_order(l[j], l[i], o.sort) < 0
    });
    let (x, y) = (l[i], l[j]);
    let c = column_order(y, x, o.sort);
    assert(c != 0 ==> entry_order(y, x, o.sort) == c);
    assert("path"@[0] == 'p' && "type"@[0] == 't' && "size"@[0] == 's' && "name"@[0] == 'n');
    assert("modified"@.len() == 8 && "path"@.len() == 4 && "type"@.len() == 4 && "attachments"@.len() == 11);
    if o.sort == "size"@ {
        assert(o.sort != "path"@ && o.sort != "type"@ && o.sort != "modified"@ && o.sort != "attachments"@);
        assert(c == int_order(y.size_bytes as int, x.size_bytes as int));
    } else if o.sort == "modified"@ {
        assert(o.sort != "path"@ && o.sort != "type"@);
        assert(c == int_order(y.modified_ms as int, x.modified_ms as int));
    } else if o.sort == "attachments"@ {
        assert(c == int_order(y.attachment_count as int, x.attachment_count as int));
    } else if o.sort == "path"@ {
        assert(c == seq_order(lowercase_of(y.folder_path), lowercase_of(x.folder_path)));
        lemma_seq_order(lowercase_of(y.folder_path), lowercase_of(x.folder_path), lowercase_of(x.folder_path));
    } else if o.sort == "type"@ {
        assert(c == seq_order(lowercase_of(y.item_type), lowercase_of(x.item_type)));
        lemma_seq_order(lowercase_of(y.item_type), lowercase_of(x.item_type), lowercase_of(x.item_type));
    } else if o.sort == "name"@ {
        assert(o.sort != "path"@ && o.sort != "type"@ && o.sort != "modified"@ && o.sort != "attachments"@);
        assert(c == seq_order(lowercase_of(y.name), lowercase_of(x.name)));
        lemma_seq_order(lowercase_of(y.name), lowercase_of(x.name), lowercase_of(x.name));
    }
}

/// A listing sorted by who an entry is shared with (or by permission) compares the
/// grants' addressees (or permissions) in lower case, first grant first: ascending, an
/// entry without grants comes before one with grants, and of two entries whose first
/// grants differ, the smaller first grant comes first (reversed when descending).
/// Any other column than the known ones sorts by name, ignoring case.
pub proof fn law_listing_by_grants_is_ordered(
    folders: Seq<EntryView>,
    grants: Seq<(Seq<char>, AccessView)>,
    ids: Seq<(Seq<char>, Option<Seq<char>>)>,
    directory_tags: Seq<TagView>,
    keeper_tags: Seq<TagView>,
    tag_rows: Seq<(bool, Seq<char>, Seq<char>)>,
    records: Seq<EntryView>,
    o: ListOptionsView,
    i: int,
    j: int,
)
    requires
        0 <= i < j < listing(folders, grants, ids, directory_tags, keeper_tags, tag_rows, records, o).len(),
    ensures
        ({
            let l = listing(folders, grants, ids, directory_tags, keeper_tags, tag_rows, records, o);
            let (first, second) = if o.descending {
                (l[j], l[i])
            } else {
                (l[i], l[j])
            };
            let shared = o.sort == "shared"@;
            let key = |e: EntryView, k: int| lowercase_of(
                if shared {
                    e.access[k].shared_to
                } else {
                    e.access[k].permissions
                },
            );
            &&& (o.sort == "shared"@ || o.sort == "permission"@) ==> {
                &&& second.access.len() == 0 ==> first.access.len() == 0
                &&& first.access.len() > 0 && second.access.len() > 0 && key(first, 0) != key(second, 0) ==> seq_lt(
                    key(first, 0),
                    key(second, 0),
                )
            }
            &&& !(o.sort == "path"@ || o.sort == "type"@ || o.sort == "modified"@ || o.sort == "attachments"@
                || o.sort == "size"@ || o.sort == "shared"@ || o.sort == "permission"@) ==> !seq_lt(
                lowercase_of(second.name),
                lowercase_of(first.name),
            )
        }),
{
    reveal_strlit("shared");
    reveal_strlit("permission");
    reveal_strlit("size");
    reveal_strlit("path");
    reveal_strlit("type");
    reveal_strlit("modified");
    reveal_strlit("attachments");
    let l = listing(folders, grants, ids, directory_tags, keeper_tags, tag_rows, records, o);
    law_listing_follows_the_chosen_order(folders, grants, ids, directory_tags, keeper_tags, tag_rows, records, o);
    let lt = listing_order(o.sort, o.descending);
    assert(!lt(l[j], l[i]));
    let (first, second) = if o.descending {
        (l[j], l[i])
    } else {
        (l[i], l[j])
    };
    // Whichever the direction, `second` does not come strictly before `first`.
    assert(entry_order(second, first, o.sort) >= 0) by {
        lemma_entry_comparator(o.sort);
        assert((|a: EntryView, b: EntryView| entry_order(a, b, o.sort))(l[j], l[i]) == -(|a: EntryView, b: EntryView|
            entry_order(a, b, o.sort))(l[i], l[j]));
    }
    let c = column_order(second, first, o.sort);
    assert(c != 0 ==> entry_order(second, first, o.sort) == c);
    assert("shared"@[0] == 's' && "permission"@[0] == 'p' && "path"@[1] == 'a' && "permission"@[1] == 'e');
    assert("shared"@.len() == 6 && "size"@.len() == 4 && "permission"@.len() == 10 && "path"@.len() == 4
        && "type"@.len() == 4 && "modified"@.len() == 8 && "attachments"@.len() == 11);
    if o.sort == "shared"@ || o.sort == "permission"@ {
        let sh = o.sort == "shared"@;
        let a2 = lowered(second.access, sh);
        let a1 = lowered(first.access, sh);
        assert(c == list_order(a2, a1));
        if a1.len() > 0 && a2.len() > 0 {
            assert(a1[0] == lowercase_of(if sh { first.access[0].shared_to } else { first.access[0].permissions }));
            assert(a2[0] == lowercase_of(if sh { second.access[0].shared_to } else { second.access[0].permissions }));
            lemma_seq_order(a2[0], a1[0], a1[0]);
        }
    } else if !(o.sort == "path"@ || o.sort == "type"@ || o.sort == "modified"@ || o.sort == "attachments"@
        || o.sort == "size"@) {
        assert(c == seq_order(lowercase_of(second.name), lowercase_of(first.name)));
        lemma_seq_order(lowercase_of(second.name), lowercase_of(first.name), lowercase_of(first.name));
    }
}

} // verus!

