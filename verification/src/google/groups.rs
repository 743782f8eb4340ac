//! Metadata-only Google Groups: groups and members as inventoried, the messages for
//! refused Directory requests, their retries, and the paging of a Directory snapshot.
use vstd::prelude::*;
use crate::google::auth::{Credentials, Setup, issue, issue_for, DIRECTORY_GROUPS, DIRECTORY_MEMBERS, GROUPS};
use crate::local_files::{ascii_lowercase, to_ascii_lowercase};
use crate::text::{has_infix, str_contains, str_eq, strings_view};

verus! {

/// A member of a group.
#[derive(Debug, Clone, Default)]
pub struct Member {
    pub id: String,
    pub email: String,
    pub role: String,
    pub kind: String,
    pub status: String,
}

/// A group and, once read, its direct members.
#[derive(Debug, Clone, Default)]
pub struct Group {
    pub id: String,
    pub email: String,
    pub name: String,
    pub description: String,
    pub direct_members_count: String,
    pub aliases: Vec<String>,
    pub non_editable_aliases: Vec<String>,
    pub members: Vec<Member>,
    pub members_unavailable: bool,
}

pub struct MemberView {
    pub id: Seq<char>,
    pub email: Seq<char>,
    pub role: Seq<char>,
    pub kind: Seq<char>,
    pub status: Seq<char>,
}

impl View for Member {
    type V = MemberView;

    open spec fn view(&self) -> MemberView {
        MemberView {
            id: self.id@,
            email: self.email@,
            role: self.role@,
            kind: self.kind@,
            status: self.status@,
        }
    }
}

pub open spec fn members_view(s: Seq<Member>) -> Seq<MemberView> {
    s.map_values(|m: Member| m@)
}

pub struct GroupView {
    pub id: Seq<char>,
    pub email: Seq<char>,
    pub name: Seq<char>,
    pub description: Seq<char>,
    pub direct_members_count: Seq<char>,
    pub aliases: Seq<Seq<char>>,
    pub non_editable_aliases: Seq<Seq<char>>,
    pub members: Seq<MemberView>,
    pub members_unavailable: bool,
}

impl View for Group {
    type V = GroupView;

    open spec fn view(&self) -> GroupView {
        GroupView {
            id: self.id@,
            email: self.email@,
            name: self.name@,
            description: self.description@,
            direct_members_count: self.direct_members_count@,
            aliases: strings_view(self.aliases@),
            non_editable_aliases: strings_view(self.non_editable_aliases@),
            members: members_view(self.members@),
            members_unavailable: self.members_unavailable,
        }
    }
}

pub open spec fn groups_view(s: Seq<Group>) -> Seq<GroupView> {
    s.map_values(|g: Group| g@)
}

/// The groups of an account.
#[derive(Debug, Clone, Default)]
pub struct Snapshot {
    pub account: String,
    pub groups: Vec<Group>,
}

/// What a refused Directory request said: the `reason` of each entry of its `errors`
/// and `details`, and its `message` when it has one.
#[derive(Debug, Clone)]
pub struct ApiErrorBody {
    pub reasons: Vec<String>,
    pub message: Option<String>,
}

pub open spec fn has_reason(body: ApiErrorBody, reason: Seq<char>) -> bool {
    strings_view(body.reasons@).contains(reason)
}

/// The fixed message for a refused Directory request; provider messages can hold
/// account details and are never repeated.
pub open spec fn api_message(status: u16, body: ApiErrorBody) -> Seq<char> {
    if status == 401 {
        "Google Groups authorization expired; reconnect Google Groups in Settings."@
    } else if status == 403 && (has_reason(body, "SERVICE_DISABLED"@) || has_reason(body, "accessNotConfigured"@)) {
        "Admin SDK API is disabled or has not been enabled for this Google app's project. Enable it in Google Cloud Console using the project associated with Boreal's Google Client ID, then retry the update."@
    } else if status == 403 && (has_reason(body, "ACCESS_TOKEN_SCOPE_INSUFFICIENT"@) || has_reason(
        body,
        "insufficientPermissions"@,
    )) {
        "Google Groups authorization is missing required scopes. Reconnect Google Groups in Settings and grant both read-only group and membership permissions."@
    } else if status == 403 && (has_reason(body, "domainPolicy"@) || has_reason(body, "ORG_RESTRICTION_VIOLATION"@)) {
        "Your Workspace policy blocks this Google app. Ask your Workspace administrator to review the app's access under Security → API controls."@
    } else if status == 403 && (has_reason(body, "rateLimitExceeded"@) || has_reason(body, "userRateLimitExceeded"@)
        || has_reason(body, "quotaExceeded"@)) {
        "Google Groups rate limit or quota reached; retry later."@
    } else if status == 403 && has_reason(body, "forbidden"@) && (body.message matches Some(m) && has_infix(
        ascii_lowercase(m@),
        "not authorized to access this resource"@,
    )) {
        "Google denied Workspace Directory access for the connected account. Ask your Workspace administrator to verify its Admin API privileges → Groups → Read role assignment (or Groups Reader role). Being a group owner or a Google Cloud project administrator alone does not grant this Directory API access. Then retry the update."@
    } else if status == 403 {
        "Google denied this Directory API request. Ask your Workspace administrator to check the connected account's Groups → Read API privilege and the Google app's access policy. This response does not identify a disabled API or missing OAuth scope."@
    } else if status == 429 {
        "Google Groups rate limit reached; retry later."@
    } else {
        "Google Groups could not be queried; retry the update."@
    }
}

pub fn api_error_message(status: u16, body: &ApiErrorBody) -> (r: &'static str)
    ensures
        r@ == api_message(status, *body),
{
    let has = |reason: &str| -> (b: bool)
        ensures
            b == has_reason(*body, reason@),
        { crate::text::listed(&body.reasons, reason) };
    if status == 401 {
        "Google Groups authorization expired; reconnect Google Groups in Settings."
    } else if status == 403 && (has("SERVICE_DISABLED") || has("accessNotConfigured")) {
        "Admin SDK API is disabled or has not been enabled for this Google app's project. Enable it in Google Cloud Console using the project associated with Boreal's Google Client ID, then retry the update."
    } else if status == 403 && (has("ACCESS_TOKEN_SCOPE_INSUFFICIENT") || has("insufficientPermissions")) {
        "Google Groups authorization is missing required scopes. Reconnect Google Groups in Settings and grant both read-only group and membership permissions."
    } else if status == 403 && (has("domainPolicy") || has("ORG_RESTRICTION_VIOLATION")) {
        "Your Workspace policy blocks this Google app. Ask your Workspace administrator to review the app's access under Security → API controls."
    } else if status == 403 && (has("rateLimitExceeded") || has("userRateLimitExceeded") || has(
        "quotaExceeded",
    )) {
        "Google Groups rate limit or quota reached; retry later."
    } else if status == 403 && has("forbidden") && (match &body.message {
        Some(m) => {
            let lower = to_ascii_lowercase(m.as_str());
            str_contains(lower.as_str(), "not authorized to access this resource")
        },
        None => false,
    }) {
        "Google denied Workspace Directory access for the connected account. Ask your Workspace administrator to verify its Admin API privileges → Groups → Read role assignment (or Groups Reader role). Being a group owner or a Google Cloud project administrator alone does not grant this Directory API access. Then retry the update."
    } else if status == 403 {
        "Google denied this Directory API request. Ask your Workspace administrator to check the connected account's Groups → Read API privilege and the Google app's access policy. This response does not identify a disabled API or missing OAuth scope."
    } else if status == 429 {
        "Google Groups rate limit reached; retry later."
    } else {
        "Google Groups could not be queried; retry the update."
    }
}

/// Why Google Groups cannot be read: the setup could not be read, or the grant lacks
/// the scopes of the chosen mode (Directory for an administrator, else the user's own
/// Groups scope through the My Groups helper, which must be configured).
pub open spec fn groups_issue(setup: Option<Setup>, saved: Option<Credentials>, client_id: Option<Seq<char>>) -> Option<
    Seq<char>,
> {
    match setup {
        None => Some("Review Google connection setup in Settings."@),
        Some(s) => if s.directory_admin {
            issue_for(saved, client_id, seq![DIRECTORY_GROUPS@, DIRECTORY_MEMBERS@])
        } else if s.groups_deployment@.len() == 0 {
            Some(
                "My Groups needs the shared Groups helper. Open Settings → Google connection to configure its deployment once. Workspace admin privileges are not needed for My Groups."@,
            )
        } else {
            issue_for(saved, client_id, seq![GROUPS@])
        },
    }
}

/// `setup` is the connection setup as read (`None` when it could not be), `saved` the
/// saved grant and `client_id` the configured Google app.
pub fn connection_issue(setup: Option<&Setup>, saved: Option<&Credentials>, client_id: Option<&str>) -> (r: Option<
    &'static str,
>)
    ensures
        match groups_issue(
            match setup {
                Some(s) => Some(*s),
                None => None,
            },
            match saved {
                Some(c) => Some(*c),
                None => None,
            },
            match client_id {
                Some(id) => Some(id@),
                None => None,
            },
        ) {
            Some(m) => r matches Some(x) && x@ == m,
            None => r is None,
        },
{
    match setup {
        None => Some("Review Google connection setup in Settings."),
        Some(s) => {
            if s.directory_admin {
                let mut scopes: Vec<&str> = Vec::new();
                scopes.push(DIRECTORY_GROUPS);
                scopes.push(DIRECTORY_MEMBERS);
                assert(scopes@.map_values(|x: &str| x@) =~= seq![DIRECTORY_GROUPS@, DIRECTORY_MEMBERS@]);
                issue(saved, client_id, &scopes)
            } else if s.groups_deployment.as_str().is_empty() {
                Some(
                    "My Groups needs the shared Groups helper. Open Settings → Google connection to configure its deployment once. Workspace admin privileges are not needed for My Groups.",
                )
            } else {
                let mut scopes: Vec<&str> = Vec::new();
                scopes.push(GROUPS);
                assert(scopes@.map_values(|x: &str| x@) =~= seq![GROUPS@]);
                issue(saved, client_id, &scopes)
            }
        },
    }
}

/// Whether Google Groups can be read.
pub fn connection_ready(setup: Option<&Setup>, saved: Option<&Credentials>, client_id: Option<&str>) -> (r: bool)
    ensures
        r == groups_issue(
            match setup {
                Some(s) => Some(*s),
                None => None,
            },
            match saved {
                Some(c) => Some(*c),
                None => None,
            },
            match client_id {
                Some(id) => Some(id@),
                None => None,
            },
        ) is None,
{
    connection_issue(setup, saved, client_id).is_none()
}

} // verus!

verus! {

pub open spec fn group_ids(gs: Seq<Group>) -> Seq<Seq<char>> {
    gs.map_values(|g: Group| g.id@)
}

pub open spec fn member_ids(ms: Seq<Member>) -> Seq<Seq<char>> {
    ms.map_values(|m: Member| m.id@)
}

/// A page of groups adds only identified groups (id and address) not seen before.
pub open spec fn groups_page_ok(seen: Seq<Seq<char>>, page: Seq<Group>) -> bool {
    forall|k: int|
        0 <= k < page.len() ==> (#[trigger] page[k]).id@.len() > 0 && page[k].email@.len() > 0 && !(seen
            + group_ids(page.take(k))).contains(page[k].id@)
}

/// A page of members adds only identified members not seen before in the group.
pub open spec fn members_page_ok(seen: Seq<Seq<char>>, page: Seq<Member>) -> bool {
    forall|k: int|
        0 <= k < page.len() ==> (#[trigger] page[k]).id@.len() > 0 && !(seen + member_ids(page.take(k))).contains(
            page[k].id@,
        )
}

/// Where a Directory snapshot stands.
#[derive(Debug, Clone, Copy, PartialEq, Eq)]
pub enum FetchStage {
    /// Reading the pages of the account's groups.
    Groups,
    /// Reading the pages of members of the current group.
    Members,
    /// Finished (with a snapshot or an error).
    Done,
}

/// A Directory snapshot in progress: every group of the account, then the direct
/// members of each. A repeated page token or a missing or repeated identity refuses the
/// whole snapshot, so a partial inventory never replaces the previous one.
#[derive(Debug, Clone)]
pub struct DirectoryFetch {
    pub account: String,
    pub stage: FetchStage,
    /// Groups whose members are read (or unavailable), in order.
    pub done: Vec<Group>,
    /// The group whose members are being read.
    pub current: Option<Group>,
    /// Groups listed so far (while listing groups), then those still to read members
    /// for, in order.
    pub pending: Vec<Group>,
    /// Group identities seen.
    pub ids: Vec<String>,
    /// Member identities seen in the current group.
    pub seen_members: Vec<String>,
    /// Page tokens seen in the current listing.
    pub pages: Vec<String>,
}

/// A request the snapshot needs answered.
#[derive(Debug, Clone, PartialEq, Eq)]
pub enum FetchRequest {
    /// A page of the groups of `user_key` (from the start when `page_token` is empty).
    Groups { user_key: String, page_token: String },
    /// A page of the direct members of `group_id`.
    Members { group_id: String, page_token: String },
}

/// What the snapshot asks for next.
#[derive(Debug)]
pub enum FetchAction {
    Request(FetchRequest),
    Finish(Result<Snapshot, String>),
}

/// The answer to the last request.
#[derive(Debug, Clone)]
pub enum FetchEvent {
    /// A page of groups and the next page token (empty at the end).
    GroupsPage { groups: Vec<Group>, next: String },
    /// A page of members and the next page token (empty at the end).
    MembersPage { members: Vec<Member>, next: String },
    /// The group's members cannot be listed (HTTP 403 or 404).
    MembersUnavailable,
}

impl DirectoryFetch {
    /// Starts with the first page of the account's groups.
    pub fn start(account: String) -> (r: (DirectoryFetch, FetchAction))
        ensures
            r.0.stage == FetchStage::Groups && r.0.account == account && r.0.done@.len() == 0 && r.0.ids@.len()
                == 0 && r.0.pages@.len() == 0 && r.0.pending@.len() == 0 && r.0.current is None,
            r.1 matches FetchAction::Request(FetchRequest::Groups { user_key, page_token }) && user_key == account
                && page_token@.len() == 0,
    {
        let user_key = account.clone();
        (
            DirectoryFetch {
                account,
                stage: FetchStage::Groups,
                done: Vec::new(),
                current: None,
                pending: Vec::new(),
                ids: Vec::new(),
                seen_members: Vec::new(),
                pages: Vec::new(),
            },
            FetchAction::Request(FetchRequest::Groups { user_key, page_token: String::new() }),
        )
    }
}

/// After a group's members are settled: the next pending group's first page of
/// members, or the finished snapshot.
pub open spec fn advanced(account: Seq<char>, done: Seq<GroupView>, pending: Seq<GroupView>, r: (DirectoryFetch, FetchAction)) -> bool {
    &&& r.0.account@ == account
    &&& if pending.len() == 0 {
        r.0.stage == FetchStage::Done && (r.1 matches FetchAction::Finish(Ok(s)) && s.account@ == account
            && groups_view(s.groups@) == done)
    } else {
        &&& r.0.stage == FetchStage::Members
        &&& groups_view(r.0.done@) == done
        &&& (r.0.current matches Some(c) && c@ == pending[0])
        &&& groups_view(r.0.pending@) == pending.drop_first()
        &&& r.0.pages@.len() == 0
        &&& r.0.seen_members@.len() == 0
        &&& (r.1 matches FetchAction::Request(FetchRequest::Members { group_id, page_token })
            && group_id@ == pending[0].id && page_token@.len() == 0)
    }
}

pub open spec fn failed(r: (DirectoryFetch, FetchAction), message: Seq<char>) -> bool {
    r.0.stage == FetchStage::Done && (r.1 matches FetchAction::Finish(Err(m)) && m@ == message)
}

fn absorb_groups(ids: &mut Vec<String>, pending: &mut Vec<Group>, page: Vec<Group>) -> (ok: bool)
    ensures
        ok == groups_page_ok(strings_view(old(ids)@), page@),
        ok ==> strings_view(final(ids)@) == strings_view(old(ids)@) + group_ids(page@) && groups_view(
            final(pending)@,
        ) == groups_view(old(pending)@) + groups_view(page@),
{
    let ghost ids0 = strings_view(ids@);
    let ghost pending0 = groups_view(pending@);
    let ghost pv = page@;
    let mut i: usize = 0;
    while i < page.len()
        invariant
            i <= pv.len(),
            pv == page@,
            ids0 == strings_view(old(ids)@),
            strings_view(ids@) == ids0 + group_ids(pv.take(i as int)),
            groups_view(pending@) == pending0 + groups_view(pv.take(i as int)),
            forall|k: int|
                0 <= k < i ==> (#[trigger] pv[k]).id@.len() > 0 && pv[k].email@.len() > 0 && !(ids0
                    + group_ids(pv.take(k))).contains(pv[k].id@),
        decreases page.len() - i,
    {
        let g = &page[i];
        if g.id.as_str().is_empty() || g.email.as_str().is_empty() || crate::text::listed(ids, g.id.as_str()) {
            assert(!(pv[i as int].id@.len() > 0 && pv[i as int].email@.len() > 0 && !(ids0 + group_ids(
                pv.take(i as int),
            )).contains(pv[i as int].id@)));
            return false;
        }
        let ghost before = strings_view(ids@);
        ids.push(g.id.clone());
        assert(strings_view(ids@) =~= before.push(g.id@));
        assert(group_ids(pv.take(i + 1)) =~= group_ids(pv.take(i as int)).push(pv[i as int].id@));
        let ghost pb = groups_view(pending@);
        pending.push(g.clone_group());
        assert(groups_view(pending@) =~= pb.push(pv[i as int]@));
        assert(groups_view(pv.take(i + 1)) =~= groups_view(pv.take(i as int)).push(pv[i as int]@));
        i = i + 1;
    }
    assert(pv.take(pv.len() as int) == pv);
    true
}

fn absorb_members(seen: &mut Vec<String>, members: &mut Vec<Member>, page: Vec<Member>) -> (ok: bool)
    ensures
        ok == members_page_ok(strings_view(old(seen)@), page@),
        ok ==> strings_view(final(seen)@) == strings_view(old(seen)@) + member_ids(page@) && members_view(
            final(members)@,
        ) == members_view(old(members)@) + members_view(page@),
{
    let ghost seen0 = strings_view(seen@);
    let ghost members0 = members_view(members@);
    let ghost pv = page@;
    let mut i: usize = 0;
    while i < page.len()
        invariant
            i <= pv.len(),
            pv == page@,
            seen0 == strings_view(old(seen)@),
            strings_view(seen@) == seen0 + member_ids(pv.take(i as int)),
            members_view(members@) == members0 + members_view(pv.take(i as int)),
            forall|k: int|
                0 <= k < i ==> (#[trigger] pv[k]).id@.len() > 0 && !(seen0 + member_ids(pv.take(k))).contains(
                    pv[k].id@,
                ),
        decreases page.len() - i,
    {
        let m = &page[i];
        if m.id.as_str().is_empty() || crate::text::listed(seen, m.id.as_str()) {
            assert(!(pv[i as int].id@.len() > 0 && !(seen0 + member_ids(pv.take(i as int))).contains(
                pv[i as int].id@,
            )));
            return false;
        }
        let ghost before = strings_view(seen@);
        seen.push(m.id.clone());
        assert(strings_view(seen@) =~= before.push(m.id@));
        assert(member_ids(pv.take(i + 1)) =~= member_ids(pv.take(i as int)).push(pv[i as int].id@));
        let ghost mb = members_view(members@);
        members.push(m.clone_member());
        assert(members_view(members@) =~= mb.push(pv[i as int]@));
        assert(members_view(pv.take(i + 1)) =~= members_view(pv.take(i as int)).push(pv[i as int]@));
        i = i + 1;
    }
    assert(pv.take(pv.len() as int) == pv);
    true
}

impl Member {
    pub fn clone_member(&self) -> (r: Member)
        ensures
            r@ == self@,
    {
        Member {
            id: self.id.clone(),
            email: self.email.clone(),
            role: self.role.clone(),
            kind: self.kind.clone(),
            status: self.status.clone(),
        }
    }
}

fn clone_strings(v: &Vec<String>) -> (r: Vec<String>)
    ensures
        strings_view(r@) == strings_view(v@),
{
    let mut r: Vec<String> = Vec::new();
    let mut i: usize = 0;
    while i < v.len()
        invariant
            i <= v@.len(),
            r@.len() == i,
            forall|k: int| 0 <= k < i ==> (#[trigger] r@[k])@ == v@[k]@,
        decreases v.len() - i,
    {
        r.push(v[i].clone());
        i = i + 1;
    }
    assert(strings_view(r@) =~= strings_view(v@));
    r
}

fn clone_members(v: &Vec<Member>) -> (r: Vec<Member>)
    ensures
        members_view(r@) == members_view(v@),
{
    let mut r: Vec<Member> = Vec::new();
    let mut i: usize = 0;
    while i < v.len()
        invariant
            i <= v@.len(),
            r@.len() == i,
            forall|k: int| 0 <= k < i ==> (#[trigger] r@[k])@ == v@[k]@,
        decreases v.len() - i,
    {
        r.push(v[i].clone_member());
        i = i + 1;
    }
    assert(members_view(r@) =~= members_view(v@));
    r
}

impl Group {
    pub fn clone_group(&self) -> (r: Group)
        ensures
            r@ == self@,
    {
        Group {
            id: self.id.clone(),
            email: self.email.clone(),
            name: self.name.clone(),
            description: self.description.clone(),
            direct_members_count: self.direct_members_count.clone(),
            aliases: clone_strings(&self.aliases),
            non_editable_aliases: clone_strings(&self.non_editable_aliases),
            members: clone_members(&self.members),
            members_unavailable: self.members_unavailable,
        }
    }
}

fn advance(account: String, done: Vec<Group>, pending: Vec<Group>, ids: Vec<String>) -> (r: (
    DirectoryFetch,
    FetchAction,
))
    ensures
        advanced(account@, groups_view(done@), groups_view(pending@), r),
        r.0.account == account,
{
    if pending.len() == 0 {
        let snapshot = Snapshot { account: account.clone(), groups: done };
        return (
            DirectoryFetch {
                account,
                stage: FetchStage::Done,
                done: Vec::new(),
                current: None,
                pending,
                ids,
                seen_members: Vec::new(),
                pages: Vec::new(),
            },
            FetchAction::Finish(Ok(snapshot)),
        );
    }
    let ghost pv = groups_view(pending@);
    let mut rest = pending;
    let first = rest.remove(0);
    assert(groups_view(rest@) =~= pv.drop_first());
    let group_id = first.id.clone();
    (
        DirectoryFetch {
            account,
            stage: FetchStage::Members,
            done,
            current: Some(first),
            pending: rest,
            ids,
            seen_members: Vec::new(),
            pages: Vec::new(),
        },
        FetchAction::Request(FetchRequest::Members { group_id, page_token: String::new() }),
    )
}

fn fail(account: String, message: &str) -> (r: (DirectoryFetch, FetchAction))
    ensures
        failed(r, message@),
        r.0.account == account,
{
    (
        DirectoryFetch {
            account,
            stage: FetchStage::Done,
            done: Vec::new(),
            current: None,
            pending: Vec::new(),
            ids: Vec::new(),
            seen_members: Vec::new(),
            pages: Vec::new(),
        },
        FetchAction::Finish(Err(message.to_owned())),
    )
}

impl DirectoryFetch {
    /// Advances the snapshot with the answer to its last request; an answer the stage
    /// does not expect ends it with an error.
    pub fn step(self, event: FetchEvent) -> (r: (DirectoryFetch, FetchAction))
        ensures
            r.0.account == self.account,
            match (self.stage, event) {
                (FetchStage::Groups, FetchEvent::GroupsPage { groups, next }) => if !groups_page_ok(
                    strings_view(self.ids@),
                    groups@,
                ) {
                    failed(r, "Invalid or duplicate Google Groups identity in report"@)
                } else if next@.len() == 0 {
                    advanced(
                        self.account@,
                        groups_view(self.done@),
                        groups_view(self.pending@) + groups_view(groups@),
                        r,
                    )
                } else if strings_view(self.pages@).contains(next@) {
                    failed(r, "Google Groups returned a repeated page; previous inventory was retained"@)
                } else {
                    &&& r.0.stage == FetchStage::Groups
                    &&& groups_view(r.0.done@) == groups_view(self.done@)
                    &&& groups_view(r.0.pending@) == groups_view(self.pending@) + groups_view(groups@)
                    &&& strings_view(r.0.ids@) == strings_view(self.ids@) + group_ids(groups@)
                    &&& strings_view(r.0.pages@) == strings_view(self.pages@).push(next@)
                    &&& (r.1 matches FetchAction::Request(FetchRequest::Groups { user_key, page_token })
                        && user_key@ == self.account@ && page_token@ == next@)
                },
                (FetchStage::Members, FetchEvent::MembersUnavailable) => match self.current {
                    Some(c) => advanced(
                        self.account@,
                        groups_view(self.done@).push(
                            GroupView { members: seq![], members_unavailable: true, ..c@ },
                        ),
                        groups_view(self.pending@),
                        r,
                    ),
                    None => failed(r, "Unexpected Google Groups report"@),
                },
                (FetchStage::Members, FetchEvent::MembersPage { members, next }) => match self.current {
                    Some(c) => if !members_page_ok(strings_view(self.seen_members@), members@) {
                        failed(r, "Invalid or duplicate Google Groups member identity"@)
                    } else if next@.len() == 0 {
                        advanced(
                            self.account@,
                            groups_view(self.done@).push(
                                GroupView { members: c@.members + members_view(members@), ..c@ },
                            ),
                            groups_view(self.pending@),
                            r,
                        )
                    } else if strings_view(self.pages@).contains(next@) {
                        failed(r, "Google Groups returned a repeated membership page"@)
                    } else {
                        &&& r.0.stage == FetchStage::Members
                        &&& (r.0.current matches Some(x) && x@ == (GroupView {
                            members: c@.members + members_view(members@),
                            ..c@
                        }))
                        &&& groups_view(r.0.done@) == groups_view(self.done@)
                        &&& groups_view(r.0.pending@) == groups_view(self.pending@)
                        &&& strings_view(r.0.seen_members@) == strings_view(self.seen_members@) + member_ids(
                            members@,
                        )
                        &&& strings_view(r.0.pages@) == strings_view(self.pages@).push(next@)
                        &&& (r.1 matches FetchAction::Request(FetchRequest::Members { group_id, page_token })
                            && group_id@ == c.id@ && page_token@ == next@)
                    },
                    None => failed(r, "Unexpected Google Groups report"@),
                },
                _ => failed(r, "Unexpected Google Groups report"@),
            },
    {
        let DirectoryFetch { account, stage, done, current, pending, ids, seen_members, pages } = self;
        match (stage, event) {
            (FetchStage::Groups, FetchEvent::GroupsPage { groups, next }) => {
                let mut ids = ids;
                let mut pending = pending;
                if !absorb_groups(&mut ids, &mut pending, groups) {
                    return fail(account, "Invalid or duplicate Google Groups identity in report");
                }
                if next.as_str().is_empty() {
                    return advance(account, done, pending, ids);
                }
                if crate::text::listed(&pages, next.as_str()) {
                    return fail(account, "Google Groups returned a repeated page; previous inventory was retained");
                }
                let mut pages = pages;
                let ghost before = strings_view(pages@);
                pages.push(next.clone());
                assert(strings_view(pages@) =~= before.push(next@));
                let user_key = account.clone();
                (
                    DirectoryFetch {
                        account,
                        stage: FetchStage::Groups,
                        done,
                        current,
                        pending,
                        ids,
                        seen_members,
                        pages,
                    },
                    FetchAction::Request(FetchRequest::Groups { user_key, page_token: next }),
                )
            },
            (FetchStage::Members, FetchEvent::MembersUnavailable) => {
                match current {
                    Some(c) => {
                        let mut g = c;
                        g.members = Vec::new();
                        g.members_unavailable = true;
                        assert(members_view(g.members@) =~= seq![]);
                        let mut done = done;
                        let ghost before = groups_view(done@);
                        let ghost gv = g@;
                        done.push(g);
                        assert(groups_view(done@) =~= before.push(gv));
                        assert(gv == (GroupView { members: seq![], members_unavailable: true, ..c@ }));
                        advance(account, done, pending, ids)
                    },
                    None => fail(account, "Unexpected Google Groups report"),
                }
            },
            (FetchStage::Members, FetchEvent::MembersPage { members, next }) => {
                match current {
                    Some(c) => {
                        let ghost cv = c@;
                        let mut g = c;
                        let mut seen = seen_members;
                        if !absorb_members(&mut seen, &mut g.members, members) {
                            return fail(account, "Invalid or duplicate Google Groups member identity");
                        }
                        assert(g@ == (GroupView { members: cv.members + members_view(members@), ..cv }));
                        if next.as_str().is_empty() {
                            let mut done = done;
                            let ghost before = groups_view(done@);
                            let ghost gv = g@;
                            done.push(g);
                            assert(groups_view(done@) =~= before.push(gv));
                            return advance(account, done, pending, ids);
                        }
                        if crate::text::listed(&pages, next.as_str()) {
                            return fail(account, "Google Groups returned a repeated membership page");
                        }
                        let mut pages = pages;
                        let ghost before = strings_view(pages@);
                        pages.push(next.clone());
                        assert(strings_view(pages@) =~= before.push(next@));
                        let group_id = g.id.clone();
                        (
                            DirectoryFetch {
                                account,
                                stage: FetchStage::Members,
                                done,
                                current: Some(g),
                                pending,
                                ids,
                                seen_members: seen,
                                pages,
                            },
                            FetchAction::Request(FetchRequest::Members { group_id, page_token: next }),
                        )
                    },
                    None => fail(account, "Unexpected Google Groups report"),
                }
            },
            _ => fail(account, "Unexpected Google Groups report"),
        }
    }
}

} // verus!

verus! {

/// Whether a Directory request is sent again after this answer, and after how many
/// seconds: rate limiting (429) and server errors (5xx) are retried twice, after one
/// second and then two.
pub fn retry_delay(status: u16, attempt: u32) -> (r: Option<u64>)
    ensures
        r == if (status == 429 || (500 <= status && status < 600)) && attempt < 2 {
            Some((attempt + 1) as u64)
        } else {
            None::<u64>
        },
{
    if (status == 429 || (500 <= status && status < 600)) && attempt < 2 {
        Some(attempt as u64 + 1)
    } else {
        None
    }
}

/// The members of a group the account may not list (403) or that is gone (404) are
/// marked unavailable instead of failing the snapshot.
pub fn members_unlisted(status: u16) -> (r: bool)
    ensures
        r == (status == 403 || status == 404),
{
    status == 403 || status == 404
}

/// The error for a refused Directory request: its fixed message, the operation and the
/// HTTP status.
pub open spec fn request_failure_text(status: u16, body: ApiErrorBody, operation: Seq<char>) -> Seq<char> {
    api_message(status, body) + " ("@ + operation + "; HTTP "@ + crate::text::decimal_of(status as nat) + ".)"@
}

pub fn request_failure(status: u16, body: &ApiErrorBody, operation: &str) -> (r: String)
    ensures
        r@ == request_failure_text(status, *body, operation@),
{
    let mut r = api_error_message(status, body).to_owned();
    r.append(" (");
    r.append(operation);
    r.append("; HTTP ");
    let digits = crate::text::decimal(status as u64);
    r.append(digits.as_str());
    r.append(".)");
    proof {
        reveal_strlit(" (");
        reveal_strlit("; HTTP ");
        reveal_strlit(".)");
    }
    r
}

} // verus!

verus! {

pub open spec fn query_view(q: Seq<(String, String)>) -> Seq<(Seq<char>, Seq<char>)> {
    q.map_values(|p: (String, String)| (p.0@, p.1@))
}

/// The query of a Directory request: 200 per page, only the fields inventoried, and only
/// direct members.
pub open spec fn request_query_of(request: FetchRequest) -> Seq<(Seq<char>, Seq<char>)> {
    match request {
        FetchRequest::Groups { user_key, page_token } => seq![
            ("userKey"@, user_key@),
            ("maxResults"@, "200"@),
            ("pageToken"@, page_token@),
            ("fields"@, "nextPageToken,groups(id,email,name,description,directMembersCount,aliases,nonEditableAliases)"@),
        ],
        FetchRequest::Members { group_id, page_token } => seq![
            ("maxResults"@, "200"@),
            ("includeDerivedMembership"@, "false"@),
            ("pageToken"@, page_token@),
            ("fields"@, "nextPageToken,members(id,email,role,type,status)"@),
        ],
    }
}

/// The query pairs of a Directory request.
pub fn request_query(request: &FetchRequest) -> (r: Vec<(String, String)>)
    ensures
        query_view(r@) == request_query_of(*request),
{
    let mut r: Vec<(String, String)> = Vec::new();
    match request {
        FetchRequest::Groups { user_key, page_token } => {
            r.push(("userKey".to_owned(), user_key.clone()));
            r.push(("maxResults".to_owned(), "200".to_owned()));
            r.push(("pageToken".to_owned(), page_token.clone()));
            r.push((
                "fields".to_owned(),
                "nextPageToken,groups(id,email,name,description,directMembersCount,aliases,nonEditableAliases)".to_owned(),
            ));
        },
        FetchRequest::Members { group_id, page_token } => {
            r.push(("maxResults".to_owned(), "200".to_owned()));
            r.push(("includeDerivedMembership".to_owned(), "false".to_owned()));
            r.push(("pageToken".to_owned(), page_token.clone()));
            r.push(("fields".to_owned(), "nextPageToken,members(id,email,role,type,status)".to_owned()));
        },
    }
    assert(query_view(r@) =~= request_query_of(*request));
    r
}

} // verus!
