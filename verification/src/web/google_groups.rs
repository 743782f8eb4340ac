//! The Google Groups page: which groups and members a search shows, in which order,
//! and how members are matched to known identities.
use vstd::prelude::*;
use crate::database::keeper::{Tag, TagView, duplicate_tags, tags_view};
use crate::google::groups::{Group, GroupView, Member, MemberView, groups_view, members_view};
use crate::local_files::{ascii_lowercase, to_ascii_lowercase};
use crate::order::{insert_by, lemma_insert_by_at, sort_by};
use crate::text::{has_infix, lowercase_of, seq_lt, str_contains, str_eq, string_lt, strings_view, to_lowercase, trim, trim_str};
use crate::update::{parse_u64, parse_u64_spec};

verus! {

/// The page's search: a group to open (its members are listed), a search term, a
/// role, a sort column and direction.
#[derive(Debug, Clone, Default)]
pub struct GroupsQuery {
    pub group: String,
    pub q: String,
    pub role: String,
    pub sort: String,
    pub direction: String,
}

/// A listed member, with the label shown for it and the tags of the identity it
/// belongs to (`known`: it belongs to a known identity).
#[derive(Debug, Clone)]
pub struct MemberRow {
    pub member: Member,
    pub label: String,
    pub known: bool,
    pub tags: Vec<Tag>,
}

pub struct MemberRowView {
    pub member: MemberView,
    pub label: Seq<char>,
    pub known: bool,
    pub tags: Seq<TagView>,
}

impl View for MemberRow {
    type V = MemberRowView;

    open spec fn view(&self) -> MemberRowView {
        MemberRowView { member: self.member@, label: self.label@, known: self.known, tags: tags_view(self.tags@) }
    }
}

pub open spec fn rows_view(s: Seq<MemberRow>) -> Seq<MemberRowView> {
    s.map_values(|r: MemberRow| r@)
}

/// Known identities: each email (trimmed and lowercased) with the identity's tags.
pub open spec fn identities_view(s: Seq<(String, Vec<Tag>)>) -> Seq<(Seq<char>, Seq<TagView>)> {
    s.map_values(|x: (String, Vec<Tag>)| (x.0@, tags_view(x.1@)))
}

/// A search term as the page compares it.
pub open spec fn search_term(q: Seq<char>) -> Seq<char> {
    lowercase_of(trim(q))
}

/// `str::eq_ignore_ascii_case`.
pub open spec fn same_ignoring_ascii_case(a: Seq<char>, b: Seq<char>) -> bool {
    ascii_lowercase(a) == ascii_lowercase(b)
}

pub open spec fn member_shown(m: MemberView, term: Seq<char>, role: Seq<char>) -> bool {
    (term.len() == 0 || has_infix(lowercase_of(m.email), term) || has_infix(lowercase_of(m.id), term)) && (
    role.len() == 0 || same_ignoring_ascii_case(m.role, role))
}

pub open spec fn group_shown(g: GroupView, term: Seq<char>, role: Seq<char>) -> bool {
    (term.len() == 0 || has_infix(lowercase_of(g.name), term) || has_infix(lowercase_of(g.email), term)
        || has_infix(lowercase_of(g.description), term) || (exists|k: int|
        0 <= k < g.aliases.len() && has_infix(lowercase_of(#[trigger] g.aliases[k]), term)) || (exists|k: int|
        0 <= k < g.members.len() && has_infix(lowercase_of((#[trigger] g.members[k]).email), term))) && (
    role.len() == 0 || exists|k: int|
        0 <= k < g.members.len() && same_ignoring_ascii_case((#[trigger] g.members[k]).role, role))
}

/// The label of a member: its email, or its id when it has none.
pub open spec fn member_label(m: MemberView) -> Seq<char> {
    if m.email.len() == 0 {
        m.id
    } else {
        m.email
    }
}

/// The tags of the identity that owns `email`: the last entry for that key.
pub open spec fn identity_of(ids: Seq<(Seq<char>, Seq<TagView>)>, key: Seq<char>) -> Option<Seq<TagView>>
    decreases ids.len(),
{
    if ids.len() == 0 {
        None
    } else if ids.last().0 == key {
        Some(ids.last().1)
    } else {
        identity_of(ids.drop_last(), key)
    }
}

pub open spec fn member_row(m: MemberView, ids: Seq<(Seq<char>, Seq<TagView>)>) -> MemberRowView {
    let found = identity_of(ids, lowercase_of(trim(m.email)));
    MemberRowView {
        member: m,
        label: member_label(m),
        known: found is Some,
        tags: match found {
            Some(t) => t,
            None => seq![],
        },
    }
}

/// The shown members of a group, as rows, in the group's order.
pub open spec fn shown_members(
    ms: Seq<MemberView>,
    term: Seq<char>,
    role: Seq<char>,
    ids: Seq<(Seq<char>, Seq<TagView>)>,
) -> Seq<MemberRowView>
    decreases ms.len(),
{
    if ms.len() == 0 {
        seq![]
    } else {
        let prev = shown_members(ms.drop_last(), term, role, ids);
        if member_shown(ms.last(), term, role) {
            prev.push(member_row(ms.last(), ids))
        } else {
            prev
        }
    }
}

/// The text a member is sorted by.
pub open spec fn member_key(r: MemberRowView, sort: Seq<char>) -> Seq<char> {
    if sort == "role"@ {
        lowercase_of(r.member.role)
    } else if sort == "type"@ {
        lowercase_of(r.member.kind)
    } else if sort == "status"@ {
        lowercase_of(r.member.status)
    } else {
        lowercase_of(r.label)
    }
}

pub open spec fn member_before(a: MemberRowView, b: MemberRowView, sort: Seq<char>) -> bool {
    seq_lt(member_key(a, sort), member_key(b, sort)) || (member_key(a, sort) == member_key(b, sort) && seq_lt(
        a.member.id,
        b.member.id,
    ))
}

/// Member order: by the sort column, then id; reversed for `desc`.
pub open spec fn member_order(sort: Seq<char>, direction: Seq<char>) -> spec_fn(MemberRowView, MemberRowView) -> bool {
    |a: MemberRowView, b: MemberRowView|
        if direction == "desc"@ {
            member_before(b, a, sort)
        } else {
            member_before(a, b, sort)
        }
}

/// The number a group is sorted by for `members`: its direct member count, 0 when
/// unreadable.
pub open spec fn member_count(g: GroupView) -> u64 {
    match parse_u64_spec(g.direct_members_count) {
        Some(n) => n,
        None => 0,
    }
}

pub open spec fn group_before(a: GroupView, b: GroupView, sort: Seq<char>) -> bool {
    let (ka, kb) = if sort == "email"@ {
        (lowercase_of(a.email), lowercase_of(b.email))
    } else {
        (lowercase_of(a.name), lowercase_of(b.name))
    };
    if sort == "members"@ {
        member_count(a) < member_count(b) || (member_count(a) == member_count(b) && seq_lt(a.id, b.id))
    } else {
        seq_lt(ka, kb) || (ka == kb && seq_lt(a.id, b.id))
    }
}

/// Group order: by the sort column, then id; reversed for `desc`.
pub open spec fn group_order(sort: Seq<char>, direction: Seq<char>) -> spec_fn(GroupView, GroupView) -> bool {
    |a: GroupView, b: GroupView|
        if direction == "desc"@ {
            group_before(b, a, sort)
        } else {
            group_before(a, b, sort)
        }
}

pub open spec fn shown_groups(gs: Seq<GroupView>, term: Seq<char>, role: Seq<char>) -> Seq<GroupView>
    decreases gs.len(),
{
    if gs.len() == 0 {
        seq![]
    } else {
        let prev = shown_groups(gs.drop_last(), term, role);
        if group_shown(gs.last(), term, role) {
            prev.push(gs.last())
        } else {
            prev
        }
    }
}

/// The first group with this id.
pub open spec fn group_with_id(gs: Seq<GroupView>, id: Seq<char>) -> Option<GroupView>
    decreases gs.len(),
{
    if gs.len() == 0 {
        None
    } else if gs[0].id == id {
        Some(gs[0])
    } else {
        group_with_id(gs.drop_first(), id)
    }
}

/// What the page lists.
#[derive(Debug, Clone)]
pub enum GroupsPage {
    /// The groups the search shows, in order.
    Groups(Vec<Group>),
    /// An opened group: the name shown for it, whether its members could not be read,
    /// and the members the search shows, in order.
    Members { current_name: String, members_unavailable: bool, members: Vec<MemberRow> },
}

pub enum GroupsPageView {
    Groups(Seq<GroupView>),
    Members(Seq<char>, bool, Seq<MemberRowView>),
}

impl View for GroupsPage {
    type V = GroupsPageView;

    open spec fn view(&self) -> GroupsPageView {
        match self {
            GroupsPage::Groups(g) => GroupsPageView::Groups(groups_view(g@)),
            GroupsPage::Members { current_name, members_unavailable, members } => GroupsPageView::Members(
                current_name@,
                *members_unavailable,
                rows_view(members@),
            ),
        }
    }
}

/// The listing of the Google Groups page for a search; `None` when the group to open
/// is not among the account's groups.
pub open spec fn groups_page(
    gs: Seq<GroupView>,
    q: Seq<char>,
    role: Seq<char>,
    group: Seq<char>,
    sort: Seq<char>,
    direction: Seq<char>,
    ids: Seq<(Seq<char>, Seq<TagView>)>,
) -> Option<GroupsPageView> {
    let term = search_term(q);
    if group.len() == 0 {
        Some(GroupsPageView::Groups(sort_by(shown_groups(gs, term, role), group_order(sort, direction))))
    } else {
        match group_with_id(gs, group) {
            None => None,
            Some(g) => Some(
                GroupsPageView::Members(
                    if g.name.len() == 0 {
                        g.email
                    } else {
                        g.name
                    },
                    g.members_unavailable,
                    sort_by(shown_members(g.members, term, role, ids), member_order(sort, direction)),
                ),
            ),
        }
    }
}

} // verus!

verus! {

fn same_ignoring_ascii_case_of(a: &str, b: &str) -> (r: bool)
    ensures
        r == same_ignoring_ascii_case(a@, b@),
{
    let la = to_ascii_lowercase(a);
    let lb = to_ascii_lowercase(b);
    str_eq(la.as_str(), lb.as_str())
}

fn member_shown_of(m: &Member, term: &str, role: &str) -> (r: bool)
    ensures
        r == member_shown(m@, term@, role@),
{
    let matched = term.is_empty() || str_contains(to_lowercase(m.email.as_str()).as_str(), term) || str_contains(
        to_lowercase(m.id.as_str()).as_str(),
        term,
    );
    matched && (role.is_empty() || same_ignoring_ascii_case_of(m.role.as_str(), role))
}

fn group_shown_of(g: &Group, term: &str, role: &str) -> (r: bool)
    ensures
        r == group_shown(g@, term@, role@),
{
    let ghost gv = g@;
    let mut matched = term.is_empty() || str_contains(to_lowercase(g.name.as_str()).as_str(), term) || str_contains(
        to_lowercase(g.email.as_str()).as_str(),
        term,
    ) || str_contains(to_lowercase(g.description.as_str()).as_str(), term);
    let mut k: usize = 0;
    while k < g.aliases.len()
        invariant
            k <= g.aliases@.len(),
            gv == g@,
            matched == (term@.len() == 0 || has_infix(lowercase_of(gv.name), term@) || has_infix(
                lowercase_of(gv.email),
                term@,
            ) || has_infix(lowercase_of(gv.description), term@) || (exists|m: int|
                0 <= m < k && has_infix(lowercase_of(#[trigger] gv.aliases[m]), term@))),
        decreases g.aliases.len() - k,
    {
        assert(gv.aliases[k as int] == g.aliases@[k as int]@);
        if str_contains(to_lowercase(g.aliases[k].as_str()).as_str(), term) {
            matched = true;
        }
        k = k + 1;
    }
    let mut j: usize = 0;
    let mut role_found = false;
    while j < g.members.len()
        invariant
            j <= g.members@.len(),
            gv == g@,
            matched == (term@.len() == 0 || has_infix(lowercase_of(gv.name), term@) || has_infix(
                lowercase_of(gv.email),
                term@,
            ) || has_infix(lowercase_of(gv.description), term@) || (exists|m: int|
                0 <= m < gv.aliases.len() && has_infix(lowercase_of(#[trigger] gv.aliases[m]), term@)) || (exists|
                m: int|
                0 <= m < j && has_infix(lowercase_of((#[trigger] gv.members[m]).email), term@))),
            role_found == exists|m: int| 0 <= m < j && same_ignoring_ascii_case((#[trigger] gv.members[m]).role, role@),
        decreases g.members.len() - j,
    {
        assert(gv.members[j as int] == g.members@[j as int]@);
        if str_contains(to_lowercase(g.members[j].email.as_str()).as_str(), term) {
            matched = true;
        }
        if same_ignoring_ascii_case_of(g.members[j].role.as_str(), role) {
            role_found = true;
        }
        j = j + 1;
    }
    matched && (role.is_empty() || role_found)
}

fn identity_index(ids: &Vec<(String, Vec<Tag>)>, key: &str) -> (r: Option<usize>)
    ensures
        match identity_of(identities_view(ids@), key@) {
            Some(t) => r matches Some(k) && k < ids@.len() && tags_view(ids@[k as int].1@) == t,
            None => r is None,
        },
{
    let ghost iv = identities_view(ids@);
    let mut n: usize = ids.len();
    assert(iv.take(n as int) =~= iv);
    while n > 0
        invariant
            n <= ids@.len(),
            iv == identities_view(ids@),
            identity_of(iv, key@) == identity_of(iv.take(n as int), key@),
        decreases n,
    {
        assert(iv.take(n as int).last() == iv[n - 1]);
        assert(iv.take(n as int).drop_last() =~= iv.take(n - 1));
        if str_eq(ids[n - 1].0.as_str(), key) {
            return Some(n - 1);
        }
        n = n - 1;
    }
    None
}

fn member_row_of(m: &Member, ids: &Vec<(String, Vec<Tag>)>) -> (r: MemberRow)
    ensures
        r@ == member_row(m@, identities_view(ids@)),
{
    let label = if m.email.as_str().is_empty() {
        m.id.clone()
    } else {
        m.email.clone()
    };
    let key = to_lowercase(trim_str(m.email.as_str()).as_str());
    match identity_index(ids, key.as_str()) {
        Some(k) => MemberRow { member: m.clone_member(), label, known: true, tags: duplicate_tags(&ids[k].1) },
        None => {
            let tags: Vec<Tag> = Vec::new();
            assert(tags_view(tags@) =~= seq![]);
            MemberRow { member: m.clone_member(), label, known: false, tags }
        },
    }
}

fn member_key_of(r: &MemberRow, sort: &str) -> (k: String)
    ensures
        k@ == member_key(r@, sort@),
{
    if str_eq(sort, "role") {
        to_lowercase(r.member.role.as_str())
    } else if str_eq(sort, "type") {
        to_lowercase(r.member.kind.as_str())
    } else if str_eq(sort, "status") {
        to_lowercase(r.member.status.as_str())
    } else {
        to_lowercase(r.label.as_str())
    }
}

fn member_before_of(a: &MemberRow, b: &MemberRow, sort: &str) -> (r: bool)
    ensures
        r == member_before(a@, b@, sort@),
{
    let ka = member_key_of(a, sort);
    let kb = member_key_of(b, sort);
    string_lt(ka.as_str(), kb.as_str()) || (str_eq(ka.as_str(), kb.as_str()) && string_lt(
        a.member.id.as_str(),
        b.member.id.as_str(),
    ))
}

fn member_precedes(a: &MemberRow, b: &MemberRow, sort: &str, desc: bool) -> (r: bool)
    ensures
        r == if desc {
            member_before(b@, a@, sort@)
        } else {
            member_before(a@, b@, sort@)
        },
{
    if desc {
        member_before_of(b, a, sort)
    } else {
        member_before_of(a, b, sort)
    }
}

fn insert_member(s: &mut Vec<MemberRow>, x: MemberRow, sort: &str, direction: &str)
    ensures
        rows_view(final(s)@) == insert_by(rows_view(old(s)@), x@, member_order(sort@, direction@)),
{
    let ghost sv = rows_view(s@);
    let ghost xv = x@;
    let ghost lt = member_order(sort@, direction@);
    let desc = str_eq(direction, "desc");
    let mut j: usize = s.len();
    while j > 0 && member_precedes(&x, &s[j - 1], sort, desc)
        invariant
            j <= s@.len(),
            sv == rows_view(s@),
            xv == x@,
            lt == member_order(sort@, direction@),
            desc == (direction@ == "desc"@),
            forall|k: int| j <= k < sv.len() ==> lt(xv, #[trigger] sv[k]),
        decreases j,
    {
        assert(sv[j - 1] == s@[j - 1]@);
        j = j - 1;
    }
    proof {
        if j > 0 {
            assert(sv[j - 1] == s@[j - 1]@);
        }
        lemma_insert_by_at(sv, xv, lt, j as int);
    }
    s.insert(j, x);
    assert(rows_view(s@) =~= sv.take(j as int) + seq![xv] + sv.skip(j as int));
}

fn member_count_of(g: &Group) -> (r: u64)
    ensures
        r == member_count(g@),
{
    let chars = crate::text::chars_of(g.direct_members_count.as_str());
    match parse_u64(chars.as_slice()) {
        Some(n) => n,
        None => 0,
    }
}

fn group_before_of(a: &Group, b: &Group, sort: &str) -> (r: bool)
    ensures
        r == group_before(a@, b@, sort@),
{
    if str_eq(sort, "members") {
        let ca = member_count_of(a);
        let cb = member_count_of(b);
        return ca < cb || (ca == cb && string_lt(a.id.as_str(), b.id.as_str()));
    }
    let (ka, kb) = if str_eq(sort, "email") {
        (to_lowercase(a.email.as_str()), to_lowercase(b.email.as_str()))
    } else {
        (to_lowercase(a.name.as_str()), to_lowercase(b.name.as_str()))
    };
    string_lt(ka.as_str(), kb.as_str()) || (str_eq(ka.as_str(), kb.as_str()) && string_lt(
        a.id.as_str(),
        b.id.as_str(),
    ))
}

fn group_precedes(a: &Group, b: &Group, sort: &str, desc: bool) -> (r: bool)
    ensures
        r == if desc {
            group_before(b@, a@, sort@)
        } else {
            group_before(a@, b@, sort@)
        },
{
    if desc {
        group_before_of(b, a, sort)
    } else {
        group_before_of(a, b, sort)
    }
}

fn insert_group(s: &mut Vec<Group>, x: Group, sort: &str, direction: &str)
    ensures
        groups_view(final(s)@) == insert_by(groups_view(old(s)@), x@, group_order(sort@, direction@)),
{
    let ghost sv = groups_view(s@);
    let ghost xv = x@;
    let ghost lt = group_order(sort@, direction@);
    let desc = str_eq(direction, "desc");
    let mut j: usize = s.len();
    while j > 0 && group_precedes(&x, &s[j - 1], sort, desc)
        invariant
            j <= s@.len(),
            sv == groups_view(s@),
            xv == x@,
            lt == group_order(sort@, direction@),
            desc == (direction@ == "desc"@),
            forall|k: int| j <= k < sv.len() ==> lt(xv, #[trigger] sv[k]),
        decreases j,
    {
        assert(sv[j - 1] == s@[j - 1]@);
        j = j - 1;
    }
    proof {
        if j > 0 {
            assert(sv[j - 1] == s@[j - 1]@);
        }
        lemma_insert_by_at(sv, xv, lt, j as int);
    }
    s.insert(j, x);
    assert(groups_view(s@) =~= sv.take(j as int) + seq![xv] + sv.skip(j as int));
}

fn group_index(gs: &Vec<Group>, id: &str) -> (r: Option<usize>)
    ensures
        match group_with_id(groups_view(gs@), id@) {
            Some(g) => r matches Some(k) && k < gs@.len() && gs@[k as int]@ == g,
            None => r is None,
        },
{
    let ghost gv = groups_view(gs@);
    let mut k: usize = 0;
    assert(gv.skip(0) =~= gv);
    while k < gs.len()
        invariant
            k <= gs@.len(),
            gv == groups_view(gs@),
            group_with_id(gv, id@) == group_with_id(gv.skip(k as int), id@),
        decreases gs.len() - k,
    {
        assert(gv.skip(k as int)[0] == gv[k as int]);
        assert(gv.skip(k as int).drop_first() =~= gv.skip(k + 1));
        if str_eq(gs[k].id.as_str(), id) {
            return Some(k);
        }
        k = k + 1;
    }
    None
}

/// The listing of the Google Groups page: the account's groups that the search shows,
/// sorted; or, for an opened group, its members that the search shows, sorted, each
/// with the identity it belongs to (`identities`: emails, trimmed and lowercased, with
/// their identity's tags). `None` when the group to open is unknown.
pub fn page(groups: &Vec<Group>, query: &GroupsQuery, identities: &Vec<(String, Vec<Tag>)>) -> (r: Option<
    GroupsPage,
>)
    ensures
        match groups_page(
            groups_view(groups@),
            query.q@,
            query.role@,
            query.group@,
            query.sort@,
            query.direction@,
            identities_view(identities@),
        ) {
            Some(p) => r matches Some(page) && page@ == p,
            None => r is None,
        },
{
    let term = to_lowercase(trim_str(query.q.as_str()).as_str());
    let t = term.as_str();
    let role = query.role.as_str();
    let ghost ids = identities_view(identities@);
    if query.group.as_str().is_empty() {
        let ghost gv = groups_view(groups@);
        let mut sorted: Vec<Group> = Vec::new();
        let mut k: usize = 0;
        while k < groups.len()
            invariant
                k <= groups@.len(),
                gv == groups_view(groups@),
                t@ == search_term(query.q@),
                groups_view(sorted@) == sort_by(
                    shown_groups(gv.take(k as int), t@, role@),
                    group_order(query.sort@, query.direction@),
                ),
            decreases groups.len() - k,
        {
            proof {
                assert(gv.take(k + 1).drop_last() =~= gv.take(k as int));
                assert(gv.take(k + 1).last() == groups@[k as int]@);
            }
            if group_shown_of(&groups[k], t, role) {
                let ghost prev = shown_groups(gv.take(k as int), t@, role@);
                proof {
                    assert(shown_groups(gv.take(k + 1), t@, role@).drop_last() =~= prev);
                }
                insert_group(&mut sorted, groups[k].clone_group(), query.sort.as_str(), query.direction.as_str());
            }
            k = k + 1;
        }
        assert(gv.take(gv.len() as int) =~= gv);
        return Some(GroupsPage::Groups(sorted));
    }
    match group_index(groups, query.group.as_str()) {
        None => None,
        Some(g) => {
            let group = &groups[g];
            let current_name = if group.name.as_str().is_empty() {
                group.email.clone()
            } else {
                group.name.clone()
            };
            let ghost mv = members_view(group.members@);
            let mut rows: Vec<MemberRow> = Vec::new();
            let mut k: usize = 0;
            while k < group.members.len()
                invariant
                    k <= group.members@.len(),
                    mv == members_view(group.members@),
                    t@ == search_term(query.q@),
                    ids == identities_view(identities@),
                    rows_view(rows@) == sort_by(
                        shown_members(mv.take(k as int), t@, role@, ids),
                        member_order(query.sort@, query.direction@),
                    ),
                decreases group.members.len() - k,
            {
                proof {
                    assert(mv.take(k + 1).drop_last() =~= mv.take(k as int));
                    assert(mv.take(k + 1).last() == group.members@[k as int]@);
                }
                if member_shown_of(&group.members[k], t, role) {
                    let row = member_row_of(&group.members[k], identities);
                    let ghost prev = shown_members(mv.take(k as int), t@, role@, ids);
                    proof {
                        assert(shown_members(mv.take(k + 1), t@, role@, ids).drop_last() =~= prev);
                    }
                    insert_member(&mut rows, row, query.sort.as_str(), query.direction.as_str());
                }
                k = k + 1;
            }
            assert(mv.take(mv.len() as int) =~= mv);
            Some(GroupsPage::Members { current_name, members_unavailable: group.members_unavailable, members: rows })
        },
    }
}

/// The map from email to identity tags that the page matches members with: for each
/// identity (its emails and its own tag slugs), each email trimmed and lowercased,
/// with those of `all_tags` whose slug the identity carries, in `all_tags`' order.
pub fn identity_map(identities: &Vec<(Vec<String>, Vec<String>)>, all_tags: &Vec<Tag>) -> (r: Vec<(String, Vec<Tag>)>)
    ensures
        identities_view(r@) == identity_entries(
            identities@.map_values(|x: (Vec<String>, Vec<String>)| (strings_view(x.0@), strings_view(x.1@))),
            tags_view(all_tags@),
        ),
{
    let ghost iv = identities@.map_values(|x: (Vec<String>, Vec<String>)| (strings_view(x.0@), strings_view(x.1@)));
    let ghost tv = tags_view(all_tags@);
    let mut r: Vec<(String, Vec<Tag>)> = Vec::new();
    let mut p: usize = 0;
    while p < identities.len()
        invariant
            p <= identities@.len(),
            iv == identities@.map_values(|x: (Vec<String>, Vec<String>)| (strings_view(x.0@), strings_view(x.1@))),
            tv == tags_view(all_tags@),
            identities_view(r@) == identity_entries(iv.take(p as int), tv),
        decreases identities.len() - p,
    {
        proof {
            assert(iv.take(p + 1).drop_last() =~= iv.take(p as int));
            assert(iv.take(p + 1).last() == iv[p as int]);
        }
        let (emails, slugs) = &identities[p];
        let ghost sv = strings_view(slugs@);
        let mut tags: Vec<Tag> = Vec::new();
        let mut t: usize = 0;
        while t < all_tags.len()
            invariant
                t <= all_tags@.len(),
                tv == tags_view(all_tags@),
                sv == strings_view(slugs@),
                tags_view(tags@) == carried_tags(tv.take(t as int), sv),
            decreases all_tags.len() - t,
        {
            proof {
                assert(tv.take(t + 1).drop_last() =~= tv.take(t as int));
                assert(tv.take(t + 1).last() == all_tags@[t as int]@);
            }
            if crate::text::listed(slugs, all_tags[t].slug.as_str()) {
                let ghost before = tags_view(tags@);
                tags.push(all_tags[t].duplicate());
                assert(tags_view(tags@) =~= before.push(all_tags@[t as int]@));
            }
            t = t + 1;
        }
        assert(tv.take(tv.len() as int) =~= tv);
        let ghost ev = strings_view(emails@);
        let ghost base = identities_view(r@);
        let mut e: usize = 0;
        while e < emails.len()
            invariant
                e <= emails@.len(),
                ev == strings_view(emails@),
                tags_view(tags@) == carried_tags(tv, sv),
                identities_view(r@) == base + email_entries(ev.take(e as int), carried_tags(tv, sv)),
            decreases emails.len() - e,
        {
            proof {
                assert(ev.take(e + 1).drop_last() =~= ev.take(e as int));
                assert(ev.take(e + 1).last() == emails@[e as int]@);
            }
            let key = to_lowercase(trim_str(emails[e].as_str()).as_str());
            let ghost before = identities_view(r@);
            r.push((key, duplicate_tags(&tags)));
            proof {
                assert(identities_view(r@) =~= before.push((lowercase_of(trim(ev[e as int])), carried_tags(tv, sv))));
                assert(email_entries(ev.take(e + 1), carried_tags(tv, sv)) =~= email_entries(
                    ev.take(e as int),
                    carried_tags(tv, sv),
                ).push((lowercase_of(trim(ev[e as int])), carried_tags(tv, sv))));
            }
            e = e + 1;
        }
        proof {
            assert(ev.take(ev.len() as int) =~= ev);
            assert(iv[p as int] == (ev, sv));
        }
        p = p + 1;
    }
    assert(iv.take(iv.len() as int) =~= iv);
    r
}

/// The tags of `all` whose slug is among `slugs`, in order.
pub open spec fn carried_tags(all: Seq<TagView>, slugs: Seq<Seq<char>>) -> Seq<TagView>
    decreases all.len(),
{
    if all.len() == 0 {
        seq![]
    } else {
        let prev = carried_tags(all.drop_last(), slugs);
        if slugs.contains(all.last().slug) {
            prev.push(all.last())
        } else {
            prev
        }
    }
}

/// Each email, trimmed and lowercased, with the given tags.
pub open spec fn email_entries(emails: Seq<Seq<char>>, tags: Seq<TagView>) -> Seq<(Seq<char>, Seq<TagView>)>
    decreases emails.len(),
{
    if emails.len() == 0 {
        seq![]
    } else {
        email_entries(emails.drop_last(), tags).push((lowercase_of(trim(emails.last())), tags))
    }
}

/// The entries of all identities, identity by identity.
pub open spec fn identity_entries(
    identities: Seq<(Seq<Seq<char>>, Seq<Seq<char>>)>,
    all: Seq<TagView>,
) -> Seq<(Seq<char>, Seq<TagView>)>
    decreases identities.len(),
{
    if identities.len() == 0 {
        seq![]
    } else {
        identity_entries(identities.drop_last(), all) + email_entries(
            identities.last().0,
            carried_tags(all, identities.last().1),
        )
    }
}

} // verus!

verus! {

/// The rank a group is sorted by: its member count for `members`, else its lower-cased
/// address (`email`) or name; then its id.
pub open spec fn group_rank(g: GroupView, sort: Seq<char>) -> (int, Seq<char>, Seq<char>) {
    if sort == "members"@ {
        (member_count(g) as int, Seq::<char>::empty(), g.id)
    } else if sort == "email"@ {
        (0, lowercase_of(g.email), g.id)
    } else {
        (0, lowercase_of(g.name), g.id)
    }
}

/// The rank a member row is sorted by: its lower-cased sort column, then its id.
pub open spec fn member_rank(r: MemberRowView, sort: Seq<char>) -> (int, Seq<char>, Seq<char>) {
    (0, member_key(r, sort), r.member.id)
}

proof fn lemma_orders_are_strict_weak(sort: Seq<char>, direction: Seq<char>)
    ensures
        crate::order::strict_weak(group_order(sort, direction)),
        crate::order::strict_weak(member_order(sort, direction)),
{
    let desc = direction == "desc"@;
    let go = group_order(sort, direction);
    let gr = |g: GroupView| group_rank(g, sort);
    assert forall|a: GroupView, b: GroupView| #[trigger] go(a, b) == if desc {
        crate::order::rank_lt(gr(b), gr(a))
    } else {
        crate::order::rank_lt(gr(a), gr(b))
    } by {}
    crate::order::lemma_by_rank_strict_weak(go, gr, desc);
    let mo = member_order(sort, direction);
    let mr = |r: MemberRowView| member_rank(r, sort);
    assert forall|a: MemberRowView, b: MemberRowView| #[trigger] mo(a, b) == if desc {
        crate::order::rank_lt(mr(b), mr(a))
    } else {
        crate::order::rank_lt(mr(a), mr(b))
    } by {}
    crate::order::lemma_by_rank_strict_weak(mo, mr, desc);
}

/// The groups page lists exactly the groups the search shows, in the order of the
/// chosen column (then id; reversed for `desc`); a group's page lists the members the
/// search shows in the same way.
pub proof fn law_pages_follow_the_chosen_order(
    gs: Seq<GroupView>,
    q: Seq<char>,
    role: Seq<char>,
    group: Seq<char>,
    sort: Seq<char>,
    direction: Seq<char>,
    ids: Seq<(Seq<char>, Seq<TagView>)>,
)
    ensures
        match groups_page(gs, q, role, group, sort, direction, ids) {
            Some(GroupsPageView::Groups(list)) => {
                &&& crate::order::sorted_by(list, group_order(sort, direction))
                &&& list.to_multiset() == shown_groups(gs, search_term(q), role).to_multiset()
            },
            Some(GroupsPageView::Members(_, _, rows)) => crate::order::sorted_by(rows, member_order(sort, direction)),
            None => true,
        },
{
    lemma_orders_are_strict_weak(sort, direction);
    let term = search_term(q);
    crate::order::lemma_sort_by_sorted(shown_groups(gs, term, role), group_order(sort, direction));
    crate::order::lemma_sort_by_multiset(shown_groups(gs, term, role), group_order(sort, direction));
    match group_with_id(gs, group) {
        Some(g) => {
            crate::order::lemma_sort_by_sorted(shown_members(g.members, term, role, ids), member_order(sort, direction));
        },
        None => {},
    }
}

proof fn lemma_shown_groups_keep(gs: Seq<GroupView>, term: Seq<char>, role: Seq<char>, k: int)
    requires
        0 <= k < gs.len(),
        group_shown(gs[k], term, role),
    ensures
        shown_groups(gs, term, role).contains(gs[k]),
    decreases gs.len(),
{
    if k == gs.len() - 1 {
        let prev = shown_groups(gs.drop_last(), term, role);
        assert(shown_groups(gs, term, role) == prev.push(gs.last()));
        assert(prev.push(gs.last())[prev.len() as int] == gs[k]);
    } else {
        lemma_shown_groups_keep(gs.drop_last(), term, role, k);
        let prev = shown_groups(gs.drop_last(), term, role);
        assert(gs.drop_last()[k] == gs[k]);
        let j = choose|j: int| 0 <= j < prev.len() && prev[j] == gs[k];
        if group_shown(gs.last(), term, role) {
            assert(prev.push(gs.last())[j] == gs[k]);
        }
    }
}

/// The groups page finds a group by any of its texts: a group whose name, address,
/// description, one of its aliases or one of its members' addresses contains the
/// search (trimmed, in lower case; the texts compared in lower case) is listed, unless
/// a role is asked for that none of its members has (roles compared ignoring ASCII
/// case).
pub proof fn law_groups_are_found_by_their_texts(
    gs: Seq<GroupView>,
    q: Seq<char>,
    role: Seq<char>,
    sort: Seq<char>,
    direction: Seq<char>,
    ids: Seq<(Seq<char>, Seq<TagView>)>,
    k: int,
)
    requires
        0 <= k < gs.len(),
        ({
            let term = lowercase_of(trim(q));
            let g = gs[k];
            ||| has_infix(lowercase_of(g.name), term)
            ||| has_infix(lowercase_of(g.email), term)
            ||| has_infix(lowercase_of(g.description), term)
            ||| exists|a: int| 0 <= a < g.aliases.len() && has_infix(lowercase_of(#[trigger] g.aliases[a]), term)
            ||| exists|m: int| 0 <= m < g.members.len() && has_infix(lowercase_of((#[trigger] g.members[m]).email), term)
        }),
        role.len() == 0 || exists|m: int|
            0 <= m < gs[k].members.len() && ascii_lowercase((#[trigger] gs[k].members[m]).role) == ascii_lowercase(role),
    ensures
        groups_page(gs, q, role, seq![], sort, direction, ids) matches Some(GroupsPageView::Groups(list))
            && list.contains(gs[k]),
{
    broadcast use vstd::seq_lib::group_to_multiset_ensures;

    let term = search_term(q);
    let shown = shown_groups(gs, term, role);
    lemma_shown_groups_keep(gs, term, role, k);
    crate::order::lemma_sort_by_multiset(shown, group_order(sort, direction));
    let list = sort_by(shown, group_order(sort, direction));
    assert(shown.to_multiset().count(gs[k]) > 0);
    assert(list.to_multiset().count(gs[k]) > 0);
}

proof fn lemma_shown_groups_only(gs: Seq<GroupView>, term: Seq<char>, role: Seq<char>, x: GroupView)
    requires
        shown_groups(gs, term, role).contains(x),
    ensures
        group_shown(x, term, role),
    decreases gs.len(),
{
    if gs.len() > 0 {
        let prev = shown_groups(gs.drop_last(), term, role);
        let j = choose|j: int| 0 <= j < shown_groups(gs, term, role).len() && shown_groups(gs, term, role)[j] == x;
        if group_shown(gs.last(), term, role) && j == prev.len() {
        } else {
            assert(prev[j] == x);
            lemma_shown_groups_only(gs.drop_last(), term, role, x);
        }
    }
}

/// The groups page lists only groups the search finds: a listed group has the search
/// (trimmed, in lower case) in its name, address, description, an alias or a member's
/// address (compared in lower case), or the search is empty; and when a role is asked
/// for, one of its members has that role (ignoring ASCII case).
pub proof fn law_listed_groups_match_the_search(
    gs: Seq<GroupView>,
    q: Seq<char>,
    role: Seq<char>,
    sort: Seq<char>,
    direction: Seq<char>,
    ids: Seq<(Seq<char>, Seq<TagView>)>,
    x: GroupView,
)
    requires
        groups_page(gs, q, role, seq![], sort, direction, ids) matches Some(GroupsPageView::Groups(list))
            && list.contains(x),
    ensures
        ({
            let term = lowercase_of(trim(q));
            ||| term.len() == 0
            ||| has_infix(lowercase_of(x.name), term)
            ||| has_infix(lowercase_of(x.email), term)
            ||| has_infix(lowercase_of(x.description), term)
            ||| exists|a: int| 0 <= a < x.aliases.len() && has_infix(lowercase_of(#[trigger] x.aliases[a]), term)
            ||| exists|m: int| 0 <= m < x.members.len() && has_infix(lowercase_of((#[trigger] x.members[m]).email), term)
        }),
        role.len() == 0 || exists|m: int|
            0 <= m < x.members.len() && ascii_lowercase((#[trigger] x.members[m]).role) == ascii_lowercase(role),
{
    broadcast use vstd::seq_lib::group_to_multiset_ensures;

    let term = search_term(q);
    let shown = shown_groups(gs, term, role);
    crate::order::lemma_sort_by_multiset(shown, group_order(sort, direction));
    let list = sort_by(shown, group_order(sort, direction));
    assert(list.to_multiset().count(x) > 0);
    assert(shown.to_multiset().count(x) > 0);
    lemma_shown_groups_only(gs, term, role, x);
}

proof fn lemma_shown_members_keep(
    ms: Seq<MemberView>,
    term: Seq<char>,
    role: Seq<char>,
    ids: Seq<(Seq<char>, Seq<TagView>)>,
    k: int,
)
    requires
        0 <= k < ms.len(),
        member_shown(ms[k], term, role),
    ensures
        shown_members(ms, term, role, ids).contains(member_row(ms[k], ids)),
    decreases ms.len(),
{
    let prev = shown_members(ms.drop_last(), term, role, ids);
    if k == ms.len() - 1 {
        assert(prev.push(member_row(ms.last(), ids))[prev.len() as int] == member_row(ms[k], ids));
    } else {
        lemma_shown_members_keep(ms.drop_last(), term, role, ids, k);
        assert(ms.drop_last()[k] == ms[k]);
        let j = choose|j: int| 0 <= j < prev.len() && prev[j] == member_row(ms[k], ids);
        if member_shown(ms.last(), term, role) {
            assert(prev.push(member_row(ms.last(), ids))[j] == member_row(ms[k], ids));
        }
    }
}

proof fn lemma_shown_members_only(
    ms: Seq<MemberView>,
    term: Seq<char>,
    role: Seq<char>,
    ids: Seq<(Seq<char>, Seq<TagView>)>,
    r: MemberRowView,
)
    requires
        shown_members(ms, term, role, ids).contains(r),
    ensures
        ms.contains(r.member) && member_shown(r.member, term, role),
    decreases ms.len(),
{
    if ms.len() > 0 {
        let prev = shown_members(ms.drop_last(), term, role, ids);
        let all = shown_members(ms, term, role, ids);
        let j = choose|j: int| 0 <= j < all.len() && all[j] == r;
        if member_shown(ms.last(), term, role) && j == prev.len() {
            assert(ms[ms.len() - 1] == r.member);
        } else {
            assert(prev[j] == r);
            lemma_shown_members_only(ms.drop_last(), term, role, ids, r);
            let i = choose|i: int| 0 <= i < ms.drop_last().len() && ms.drop_last()[i] == r.member;
            assert(ms[i] == r.member);
        }
    }
}

/// An opened group's page lists each of its members whose address or id contains the
/// search (trimmed, in lower case; compared in lower case) and whose role is the one
/// asked for (ignoring ASCII case; any role when none is asked for), and no one else.
pub proof fn law_group_members_match_the_search(
    gs: Seq<GroupView>,
    q: Seq<char>,
    role: Seq<char>,
    group: Seq<char>,
    sort: Seq<char>,
    direction: Seq<char>,
    ids: Seq<(Seq<char>, Seq<TagView>)>,
)
    requires
        group.len() > 0,
    ensures
        match group_with_id(gs, group) {
            None => groups_page(gs, q, role, group, sort, direction, ids) is None,
            Some(g) => groups_page(gs, q, role, group, sort, direction, ids) matches Some(
                GroupsPageView::Members(_, _, rows),
            ) && {
                let term = lowercase_of(trim(q));
                &&& forall|k: int|
                    0 <= k < g.members.len() && (term.len() == 0 || has_infix(lowercase_of(g.members[k].email), term)
                        || has_infix(lowercase_of(g.members[k].id), term)) && (role.len() == 0 || ascii_lowercase(
                        g.members[k].role,
                    ) == ascii_lowercase(role)) ==> rows.contains(#[trigger] member_row(g.members[k], ids))
                &&& forall|r: MemberRowView|
                    #[trigger] rows.contains(r) ==> g.members.contains(r.member) && (term.len() == 0 || has_infix(
                        lowercase_of(r.member.email),
                        term,
                    ) || has_infix(lowercase_of(r.member.id), term)) && (role.len() == 0 || ascii_lowercase(
                        r.member.role,
                    ) == ascii_lowercase(role))
            },
        },
{
    broadcast use vstd::seq_lib::group_to_multiset_ensures;

    let term = search_term(q);
    match group_with_id(gs, group) {
        None => {},
        Some(g) => {
            let shown = shown_members(g.members, term, role, ids);
            let order = member_order(sort, direction);
            crate::order::lemma_sort_by_multiset(shown, order);
            let rows = sort_by(shown, order);
            assert forall|k: int|
                0 <= k < g.members.len() && (term.len() == 0 || has_infix(lowercase_of(g.members[k].email), term)
                    || has_infix(lowercase_of(g.members[k].id), term)) && (role.len() == 0 || ascii_lowercase(
                    g.members[k].role,
                ) == ascii_lowercase(role)) implies rows.contains(#[trigger] member_row(g.members[k], ids)) by {
                lemma_shown_members_keep(g.members, term, role, ids, k);
                assert(shown.to_multiset().count(member_row(g.members[k], ids)) > 0);
            }
            assert forall|r: MemberRowView| #[trigger] rows.contains(r) implies g.members.contains(r.member) && (
            term.len() == 0 || has_infix(lowercase_of(r.member.email), term) || has_infix(
                lowercase_of(r.member.id),
                term,
            )) && (role.len() == 0 || ascii_lowercase(r.member.role) == ascii_lowercase(role)) by {
                assert(rows.to_multiset().count(r) > 0);
                lemma_shown_members_only(g.members, term, role, ids, r);
            }
        },
    }
}

} // verus!

