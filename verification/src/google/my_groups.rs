//! Reports of the My Groups Apps Script helper: only allow-listed metadata of the
//! account's own groups is imported, page by page, within fixed limits.
use vstd::prelude::*;
use crate::google::auth::{sha256, sha256_of};
use crate::google::groups::{Group, Member, GroupView, MemberView, groups_view, members_view};
use crate::local_files::{ascii_lowercase, to_ascii_lowercase};
use crate::text::{chars_of, is_space, is_whitespace, lowercase_of, str_eq, string_from_chars, strings_view, to_lowercase};

verus! {

/// A member as the helper reports it.
#[derive(Debug, Clone)]
pub struct ReportMember {
    pub email: String,
    pub role: String,
    pub kind: String,
}

/// A group as the helper reports it.
#[derive(Debug, Clone)]
pub struct ReportGroup {
    pub email: String,
    pub members: Vec<ReportMember>,
    pub members_unavailable: bool,
    pub self_role: String,
}

/// One page of the helper's report; `next` is the cursor of the next page (as JSON
/// text), if any.
#[derive(Debug, Clone)]
pub struct HelperPage {
    pub schema: u32,
    pub account: String,
    pub groups: Vec<ReportGroup>,
    pub next: Option<String>,
}

/// What the helper answered.
#[derive(Debug, Clone)]
pub enum HelperReply {
    /// The answer carries an `error`.
    Failed,
    /// The answer has no `response.result`.
    Missing,
    /// `response.result` is not a report page.
    Malformed,
    /// A report page.
    Page(HelperPage),
}

/// The hexadecimal digit of a value below 16.
pub open spec fn hex_digit(v: u8) -> char {
    if v < 10 {
        (('0' as u8) + v) as char
    } else {
        (('a' as u8) + (v - 10)) as char
    }
}

/// Bytes in lowercase hexadecimal, two digits each.
pub open spec fn hex_of(bytes: Seq<u8>) -> Seq<char>
    decreases bytes.len(),
{
    if bytes.len() == 0 {
        seq![]
    } else {
        hex_of(bytes.drop_last()) + seq![hex_digit(bytes.last() / 16), hex_digit(bytes.last() % 16)]
    }
}

fn hex_digit_of(v: u8) -> (c: char)
    requires
        v < 16,
    ensures
        c == hex_digit(v),
{
    if v < 10 {
        (48u8 + v) as char
    } else {
        (97u8 + (v - 10)) as char
    }
}

pub(crate) fn hex_string(bytes: &Vec<u8>) -> (r: String)
    ensures
        r@ == hex_of(bytes@),
{
    let mut out: Vec<char> = Vec::new();
    let mut i: usize = 0;
    while i < bytes.len()
        invariant
            i <= bytes@.len(),
            out@ == hex_of(bytes@.take(i as int)),
        decreases bytes.len() - i,
    {
        let b = bytes[i];
        assert(bytes@.take(i + 1).drop_last() == bytes@.take(i as int));
        assert(bytes@.take(i + 1).last() == b);
        out.push(hex_digit_of(b / 16));
        out.push(hex_digit_of(b % 16));
        i = i + 1;
    }
    assert(bytes@.take(bytes@.len() as int) == bytes@);
    string_from_chars(out.as_slice())
}

/// The stable identity of a helper group or member: `apps-` and the SHA-256 (in hex)
/// of the lower-cased address.
pub open spec fn identity_of(email: Seq<char>) -> Seq<char> {
    "apps-"@ + hex_of(sha256_of(vstd::utf8::encode_utf8(ascii_lowercase(email))))
}

pub fn id(email: &str) -> (r: String)
    ensures
        r@ == identity_of(email@),
{
    let lower = to_ascii_lowercase(email);
    let digest = sha256(lower.as_str().as_bytes());
    let hex = hex_string(&digest);
    let mut r = "apps-".to_owned();
    r.append(hex.as_str());
    r
}

/// The length in bytes of a string, as `str::len` gives it.
pub open spec fn byte_len(s: Seq<char>) -> nat {
    (vstd::utf8::encode_utf8(s).len() as usize) as nat
}

/// `char::is_control`: the C0 and C1 control characters.
pub open spec fn is_control(c: char) -> bool {
    ('\u{0}' <= c && c <= '\u{1F}') || ('\u{7F}' <= c && c <= '\u{9F}')
}

/// An address as the helper may report it: at most 320 bytes, with an `@`, no blank
/// or control character.
pub open spec fn email_ok(email: Seq<char>) -> bool {
    byte_len(email) <= 320 && email.contains('@') && forall|i: int|
        0 <= i < email.len() ==> !is_space(#[trigger] email[i]) && !is_control(email[i])
}

pub fn valid_email(email: &str) -> (r: bool)
    ensures
        r == email_ok(email@),
{
    if email.len() > 320 {
        return false;
    }
    let v = chars_of(email);
    let mut at = false;
    let mut i: usize = 0;
    while i < v.len()
        invariant
            i <= v@.len(),
            v@ == email@,
            at == (exists|k: int| 0 <= k < i && #[trigger] v@[k] == '@'),
            forall|k: int| 0 <= k < i ==> !is_space(#[trigger] v@[k]) && !is_control(v@[k]),
        decreases v.len() - i,
    {
        let c = v[i];
        if is_whitespace(c) || ('\u{0}' <= c && c <= '\u{1F}') || ('\u{7F}' <= c && c <= '\u{9F}') {
            return false;
        }
        if c == '@' {
            at = true;
        }
        i = i + 1;
    }
    at
}

/// The membership roles the helper may report.
pub open spec fn role_ok(role: Seq<char>) -> bool {
    role == "OWNER"@ || role == "MANAGER"@ || role == "MEMBER"@ || role == "INVITED"@ || role == "PENDING"@
        || role == "BANNED"@ || role == "UNKNOWN"@
}

pub fn role(value: &str) -> (r: bool)
    ensures
        r == role_ok(value@),
{
    str_eq(value, "OWNER") || str_eq(value, "MANAGER") || str_eq(value, "MEMBER") || str_eq(value, "INVITED")
        || str_eq(value, "PENDING") || str_eq(value, "BANNED") || str_eq(value, "UNKNOWN")
}

/// The status shown for a role: invitations are pending, bans and unknown roles stay
/// as they are, everything else is active.
pub open spec fn status_of(role: Seq<char>) -> Seq<char> {
    if role == "PENDING"@ || role == "INVITED"@ {
        "PENDING"@
    } else if role == "BANNED"@ {
        "BANNED"@
    } else if role == "UNKNOWN"@ {
        "UNKNOWN"@
    } else {
        "ACTIVE"@
    }
}

fn status_for(role: &str) -> (r: &'static str)
    ensures
        r@ == status_of(role@),
{
    if str_eq(role, "PENDING") || str_eq(role, "INVITED") {
        "PENDING"
    } else if str_eq(role, "BANNED") {
        "BANNED"
    } else if str_eq(role, "UNKNOWN") {
        "UNKNOWN"
    } else {
        "ACTIVE"
    }
}

} // verus!

verus! {

pub open spec fn kind_ok(kind: Seq<char>) -> bool {
    kind == "USER"@ || kind == "GROUP"@
}

/// The lower-cased addresses of the first members.
pub open spec fn lowered_emails(ms: Seq<ReportMember>) -> Seq<Seq<char>> {
    ms.map_values(|m: ReportMember| ascii_lowercase(m.email@))
}

/// Every member is valid and appears once (addresses compared without case).
pub open spec fn members_ok(ms: Seq<ReportMember>) -> bool {
    forall|k: int|
        0 <= k < ms.len() ==> email_ok((#[trigger] ms[k]).email@) && role_ok(ms[k].role@) && kind_ok(ms[k].kind@)
            && !lowered_emails(ms.take(k)).contains(ascii_lowercase(ms[k].email@))
}

pub open spec fn group_ok(g: ReportGroup) -> bool {
    email_ok(g.email@) && role_ok(g.self_role@) && !(g.members_unavailable && g.members@.len() > 0)
}

/// The first invalid group of a page (its own metadata, then its members).
pub open spec fn report_problem(groups: Seq<ReportGroup>, n: int) -> Option<Seq<char>>
    decreases n,
{
    if n <= 0 {
        None
    } else {
        match report_problem(groups, n - 1) {
            Some(m) => Some(m),
            None => if !group_ok(groups[n - 1]) {
                Some("Invalid Groups helper metadata"@)
            } else if !members_ok(groups[n - 1].members@) {
                Some("Invalid or duplicate Groups helper member"@)
            } else {
                None
            },
        }
    }
}

pub open spec fn member_of(m: ReportMember) -> MemberView {
    MemberView {
        id: identity_of(m.email@),
        email: m.email@,
        role: m.role@,
        kind: m.kind@,
        status: status_of(m.role@),
    }
}

pub open spec fn group_of(g: ReportGroup) -> GroupView {
    GroupView {
        id: identity_of(g.email@),
        email: g.email@,
        name: seq![],
        description: "Your membership: "@ + lowercase_of(g.self_role@) + ". Member results may be incomplete."@,
        direct_members_count: seq![],
        aliases: seq![],
        non_editable_aliases: seq![],
        members: g.members@.map_values(|m: ReportMember| member_of(m)),
        members_unavailable: g.members_unavailable,
    }
}

pub open spec fn opt_text_view(o: Option<String>) -> Option<Seq<char>> {
    match o {
        Some(s) => Some(s@),
        None => None,
    }
}

/// The groups of one helper answer and the cursor of the next page, or why the
/// answer is refused.
pub open spec fn parsed(reply: HelperReply, account: Seq<char>) -> Result<(Seq<GroupView>, Option<Seq<char>>), Seq<char>> {
    match reply {
        HelperReply::Failed => Err(
            "The My Groups helper could not finish. Check member visibility, Apps Script quotas and the deployed helper version, then retry. Previous inventory was retained."@,
        ),
        HelperReply::Missing => Err("The Groups helper did not return a report; check its deployment and version"@),
        HelperReply::Malformed => Err("Invalid Groups helper report; previous inventory retained"@),
        HelperReply::Page(p) => if p.schema != 1 || ascii_lowercase(p.account@) != ascii_lowercase(account) {
            Err("Groups helper account or version mismatch; previous inventory retained"@)
        } else {
            match report_problem(p.groups@, p.groups@.len() as int) {
                Some(m) => Err(m),
                None => Ok(
                    (p.groups@.map_values(|g: ReportGroup| group_of(g)), opt_text_view(p.next)),
                ),
            }
        },
    }
}

fn convert_members(ms: &Vec<ReportMember>) -> (r: Option<Vec<Member>>)
    ensures
        match r {
            Some(v) => members_ok(ms@) && members_view(v@) == ms@.map_values(|m: ReportMember| member_of(m)),
            None => !members_ok(ms@),
        },
{
    let mut seen: Vec<String> = Vec::new();
    let mut out: Vec<Member> = Vec::new();
    let mut i: usize = 0;
    while i < ms.len()
        invariant
            i <= ms@.len(),
            strings_view(seen@) == lowered_emails(ms@.take(i as int)),
            members_view(out@) == ms@.take(i as int).map_values(|m: ReportMember| member_of(m)),
            forall|k: int|
                0 <= k < i ==> email_ok((#[trigger] ms@[k]).email@) && role_ok(ms@[k].role@) && kind_ok(ms@[k].kind@)
                    && !lowered_emails(ms@.take(k)).contains(ascii_lowercase(ms@[k].email@)),
        decreases ms.len() - i,
    {
        let m = &ms[i];
        let lower = to_ascii_lowercase(m.email.as_str());
        if !valid_email(m.email.as_str()) || !role(m.role.as_str()) || !(str_eq(m.kind.as_str(), "USER") || str_eq(
            m.kind.as_str(),
            "GROUP",
        )) || crate::text::listed(&seen, lower.as_str()) {
            assert(!(email_ok(ms@[i as int].email@) && role_ok(ms@[i as int].role@) && kind_ok(ms@[i as int].kind@)
                && !lowered_emails(ms@.take(i as int)).contains(ascii_lowercase(ms@[i as int].email@))));
            return None;
        }
        let ghost sb = strings_view(seen@);
        seen.push(lower);
        assert(strings_view(seen@) =~= sb.push(ascii_lowercase(m.email@)));
        assert(lowered_emails(ms@.take(i + 1)) =~= lowered_emails(ms@.take(i as int)).push(
            ascii_lowercase(ms@[i as int].email@),
        ));
        let member = Member {
            id: id(m.email.as_str()),
            email: m.email.clone(),
            status: status_for(m.role.as_str()).to_owned(),
            role: m.role.clone(),
            kind: m.kind.clone(),
        };
        let ghost ob = members_view(out@);
        out.push(member);
        assert(members_view(out@) =~= ob.push(member_of(ms@[i as int])));
        assert(ms@.take(i + 1).map_values(|m: ReportMember| member_of(m)) =~= ms@.take(i as int).map_values(
            |m: ReportMember| member_of(m),
        ).push(member_of(ms@[i as int])));
        i = i + 1;
    }
    assert(ms@.take(ms@.len() as int) == ms@);
    Some(out)
}

fn convert_group(g: &ReportGroup) -> (r: Result<Group, &'static str>)
    ensures
        match r {
            Ok(x) => group_ok(*g) && members_ok(g.members@) && x@ == group_of(*g),
            Err(m) => if !group_ok(*g) {
                m@ == "Invalid Groups helper metadata"@
            } else {
                !members_ok(g.members@) && m@ == "Invalid or duplicate Groups helper member"@
            },
        },
{
    if !valid_email(g.email.as_str()) || !role(g.self_role.as_str()) || (g.members_unavailable
        && g.members.len() > 0) {
        return Err("Invalid Groups helper metadata");
    }
    let members = match convert_members(&g.members) {
        Some(m) => m,
        None => {
            return Err("Invalid or duplicate Groups helper member");
        },
    };
    let mut description = "Your membership: ".to_owned();
    let lowered = to_lowercase(g.self_role.as_str());
    description.append(lowered.as_str());
    description.append(". Member results may be incomplete.");
    let group = Group {
        id: id(g.email.as_str()),
        email: g.email.clone(),
        name: String::new(),
        description,
        direct_members_count: String::new(),
        aliases: Vec::new(),
        non_editable_aliases: Vec::new(),
        members,
        members_unavailable: g.members_unavailable,
    };
    assert(strings_view(group.aliases@) =~= seq![]);
    assert(strings_view(group.non_editable_aliases@) =~= seq![]);
    Ok(group)
}

/// Reads one helper answer for `account`: refused answers keep the previous inventory.
pub fn parse(reply: HelperReply, account: &str) -> (r: Result<(Vec<Group>, Option<String>), String>)
    ensures
        match parsed(reply, account@) {
            Ok((gs, next)) => r matches Ok((v, n)) && groups_view(v@) == gs && opt_text_view(n) == next,
            Err(m) => r matches Err(e) && e@ == m,
        },
{
    match &reply {
        HelperReply::Failed => Err(
            "The My Groups helper could not finish. Check member visibility, Apps Script quotas and the deployed helper version, then retry. Previous inventory was retained.".to_owned(),
        ),
        HelperReply::Missing => Err(
            "The Groups helper did not return a report; check its deployment and version".to_owned(),
        ),
        HelperReply::Malformed => Err("Invalid Groups helper report; previous inventory retained".to_owned()),
        HelperReply::Page(p) => {
            let a = to_ascii_lowercase(p.account.as_str());
            let b = to_ascii_lowercase(account);
            if p.schema != 1 || !str_eq(a.as_str(), b.as_str()) {
                return Err("Groups helper account or version mismatch; previous inventory retained".to_owned());
            }
            let ghost gs = p.groups@;
            let mut groups: Vec<Group> = Vec::new();
            let mut i: usize = 0;
            while i < p.groups.len()
                invariant
                    i <= gs.len(),
                    gs == p.groups@,
                    reply == HelperReply::Page(*p),
                    p.schema == 1,
                    ascii_lowercase(p.account@) == ascii_lowercase(account@),
                    report_problem(gs, i as int) is None,
                    groups_view(groups@) == gs.take(i as int).map_values(|g: ReportGroup| group_of(g)),
                decreases p.groups.len() - i,
            {
                match convert_group(&p.groups[i]) {
                    Ok(g) => {
                        let ghost before = groups_view(groups@);
                        groups.push(g);
                        assert(groups_view(groups@) =~= before.push(group_of(gs[i as int])));
                        assert(gs.take(i + 1).map_values(|g: ReportGroup| group_of(g)) =~= gs.take(
                            i as int,
                        ).map_values(|g: ReportGroup| group_of(g)).push(group_of(gs[i as int])));
                    },
                    Err(m) => {
                        proof {
                            assert(report_problem(gs, i + 1) == Some(m@));
                            lemma_report_problem_stops(gs, i as int, gs.len() as int);
                            assert(report_problem(gs, gs.len() as int) == Some(m@));
                        }
                        return Err(m.to_owned());
                    },
                }
                i = i + 1;
            }
            assert(gs.take(gs.len() as int) == gs);
            let next = match &p.next {
                Some(n) => Some(n.clone()),
                None => None,
            };
            Ok((groups, next))
        },
    }
}

proof fn lemma_report_problem_stops(groups: Seq<ReportGroup>, k: int, n: int)
    requires
        0 <= k < n,
        report_problem(groups, k) is None,
        report_problem(groups, k + 1) is Some,
    ensures
        report_problem(groups, n) == report_problem(groups, k + 1),
    decreases n - k,
{
    if n > k + 1 {
        lemma_report_problem_stops(groups, k, n - 1);
    }
}

} // verus!

verus! {

/// Where a My Groups snapshot stands.
#[derive(Debug, Clone, Copy, PartialEq, Eq, Structural)]
pub enum HelperStage {
    /// Waiting for the answer to a page request.
    Requesting,
    Done,
}

/// A My Groups snapshot in progress: the helper's pages, in order, at most a thousand
/// of them and 64 MiB in all. A repeated group or cursor refuses the whole snapshot, so
/// a partial inventory never replaces the previous one.
#[derive(Debug, Clone)]
pub struct HelperFetch {
    pub account: String,
    pub stage: HelperStage,
    pub groups: Vec<Group>,
    /// Cursors of the pages requested after the first (as JSON text).
    pub cursors: Vec<String>,
    /// Bytes of the answers read so far.
    pub total_bytes: usize,
    /// Pages requested so far.
    pub requests: u32,
}

/// What the snapshot asks for next.
#[derive(Debug)]
pub enum HelperAction {
    /// Check for cancellation, then ask the helper for the page at `cursor` (JSON text;
    /// `None` for the first page).
    Request { cursor: Option<String> },
    Finish(Result<crate::google::groups::Snapshot, String>),
}

/// What came of the last request.
#[derive(Debug)]
pub enum HelperEvent {
    /// The update was canceled before the request was made.
    Canceled,
    /// No access token for the Groups scope, and why.
    NoToken(String),
    /// The request failed or timed out.
    Unreachable,
    /// Google answered with this (unsuccessful) HTTP status.
    Refused(u16),
    /// The answer could not be read.
    Unreadable,
    /// The answer was read (at most 8 MiB and one byte): its length and what it holds
    /// (`None`: not JSON).
    Answered { length: usize, reply: Option<HelperReply> },
}

/// The message for an unsuccessful helper request.
pub open spec fn helper_refusal(status: u16) -> Seq<char> {
    if status == 401 {
        "Google authorization expired. Reconnect in Settings → Google connection."@
    } else if status == 403 {
        "Google denied access to the My Groups helper. Check that Apps Script API is enabled, the executable allows this user, and its Cloud project matches Boreal's OAuth client. Your organization may need to allow the app; a Workspace Groups Reader role is not required for this mode."@
    } else if status == 404 {
        "My Groups helper deployment was not found. Check its deployment ID in Google connection setup."@
    } else if status == 429 {
        "My Groups quota reached. Retry later; previous inventory was retained."@
    } else {
        "The My Groups service is temporarily unavailable. Retry the update."@
    }
}

pub fn refusal_message(status: u16) -> (r: &'static str)
    ensures
        r@ == helper_refusal(status),
{
    if status == 401 {
        "Google authorization expired. Reconnect in Settings → Google connection."
    } else if status == 403 {
        "Google denied access to the My Groups helper. Check that Apps Script API is enabled, the executable allows this user, and its Cloud project matches Boreal's OAuth client. Your organization may need to allow the app; a Workspace Groups Reader role is not required for this mode."
    } else if status == 404 {
        "My Groups helper deployment was not found. Check its deployment ID in Google connection setup."
    } else if status == 429 {
        "My Groups quota reached. Retry later; previous inventory was retained."
    } else {
        "The My Groups service is temporarily unavailable. Retry the update."
    }
}

/// The largest answer read, and the most read in all.
pub const PAGE_LIMIT_BYTES: usize = 8388608;
pub const TOTAL_LIMIT_BYTES: usize = 67108864;
/// The most pages requested.
pub const MAX_REQUESTS: u32 = 1000;

/// A page adds only groups not seen before.
pub open spec fn fresh_groups(seen: Seq<GroupView>, page: Seq<GroupView>) -> bool {
    forall|k: int|
        0 <= k < page.len() ==> !(seen + page.take(k)).map_values(|g: GroupView| g.id).contains(
            (#[trigger] page[k]).id,
        )
}

pub open spec fn stopped(r: (HelperFetch, HelperAction), message: Seq<char>) -> bool {
    &&& r.0.stage == HelperStage::Done
    &&& r.1 matches HelperAction::Finish(Err(m)) && m@ == message
}

impl HelperFetch {
    /// Starts with the first page.
    pub fn start(account: String) -> (r: (HelperFetch, HelperAction))
        ensures
            r.0.account == account && r.0.stage == HelperStage::Requesting,
            r.0.groups@.len() == 0 && r.0.cursors@.len() == 0 && r.0.total_bytes == 0 && r.0.requests == 1,
            r.1 matches HelperAction::Request { cursor } && cursor is None,
    {
        (
            HelperFetch {
                account,
                stage: HelperStage::Requesting,
                groups: Vec::new(),
                cursors: Vec::new(),
                total_bytes: 0,
                requests: 1,
            },
            HelperAction::Request { cursor: None },
        )
    }
}

fn stop(s: HelperFetch, message: &str) -> (r: (HelperFetch, HelperAction))
    ensures
        stopped(r, message@),
        r.0.account == s.account,
{
    let mut s = s;
    s.stage = HelperStage::Done;
    (s, HelperAction::Finish(Err(message.to_owned())))
}

fn has_group(groups: &Vec<Group>, id: &str) -> (r: bool)
    ensures
        r == groups_view(groups@).map_values(|g: GroupView| g.id).contains(id@),
{
    let ghost ids = groups_view(groups@).map_values(|g: GroupView| g.id);
    let mut i: usize = 0;
    while i < groups.len()
        invariant
            i <= groups@.len(),
            ids == groups_view(groups@).map_values(|g: GroupView| g.id),
            forall|k: int| 0 <= k < i ==> ids[k] != id@,
        decreases groups.len() - i,
    {
        assert(ids[i as int] == groups@[i as int].id@);
        if str_eq(groups[i].id.as_str(), id) {
            assert(ids[i as int] == id@);
            return true;
        }
        i = i + 1;
    }
    false
}

fn absorb_new_groups(groups: &mut Vec<Group>, page: &Vec<Group>) -> (ok: bool)
    ensures
        ok == fresh_groups(groups_view(old(groups)@), groups_view(page@)),
        ok ==> groups_view(final(groups)@) == groups_view(old(groups)@) + groups_view(page@),
{
    let ghost start = groups_view(groups@);
    let ghost pv = groups_view(page@);
    let mut i: usize = 0;
    while i < page.len()
        invariant
            i <= page@.len(),
            pv == groups_view(page@),
            start == groups_view(old(groups)@),
            groups_view(groups@) == start + pv.take(i as int),
            forall|k: int|
                0 <= k < i ==> !(start + pv.take(k)).map_values(|g: GroupView| g.id).contains(
                    #[trigger] pv[k].id,
                ),
        decreases page.len() - i,
    {
        assert(pv[i as int] == page@[i as int]@);
        if has_group(groups, page[i].id.as_str()) {
            assert(!fresh_groups(start, pv));
            return false;
        }
        let ghost before = groups_view(groups@);
        groups.push(page[i].clone_group());
        assert(groups_view(groups@) =~= before.push(pv[i as int]));
        assert(pv.take(i + 1) =~= pv.take(i as int).push(pv[i as int]));
        assert(start + pv.take(i + 1) =~= (start + pv.take(i as int)).push(pv[i as int]));
        i = i + 1;
    }
    assert(pv.take(pv.len() as int) =~= pv);
    true
}

impl HelperFetch {
    /// Advances the snapshot with what came of its last request.
    pub fn step(self, event: HelperEvent) -> (r: (HelperFetch, HelperAction))
        requires
            self.stage == HelperStage::Requesting,
            self.requests <= MAX_REQUESTS,
        ensures
            r.0.account == self.account,
            r.0.stage == HelperStage::Requesting ==> r.0.requests == self.requests + 1 && r.0.requests
                <= MAX_REQUESTS,
            match event {
                HelperEvent::Canceled => stopped(r, "Google Groups update canceled"@),
                HelperEvent::NoToken(m) => stopped(r, m@),
                HelperEvent::Unreachable => stopped(
                    r,
                    "My Groups request failed or timed out. Retry; previous inventory was retained."@,
                ),
                HelperEvent::Refused(status) => stopped(r, helper_refusal(status)),
                HelperEvent::Unreadable => stopped(r, "Unable to read Groups helper report"@),
                HelperEvent::Answered { length, reply } => {
                    let total = if self.total_bytes + length > usize::MAX {
                        usize::MAX as int
                    } else {
                        self.total_bytes + length
                    };
                    if total > TOTAL_LIMIT_BYTES || length > PAGE_LIMIT_BYTES {
                        stopped(r, "Groups helper report is too large; previous inventory retained"@)
                    } else {
                        match reply {
                            None => stopped(r, "Invalid Groups helper response"@),
                            Some(rep) => match parsed(rep, self.account@) {
                                Err(m) => stopped(r, m),
                                Ok((gs, next)) => if !fresh_groups(groups_view(self.groups@), gs) {
                                    stopped(r, "Groups changed during update; retry. Previous inventory retained."@)
                                } else {
                                    match next {
                                        None => {
                                            &&& r.0.stage == HelperStage::Done
                                            &&& r.1 matches HelperAction::Finish(Ok(s)) && s.account@
                                                == self.account@ && groups_view(s.groups@) == groups_view(
                                                self.groups@,
                                            ) + gs
                                        },
                                        Some(n) => if strings_view(self.cursors@).contains(n) {
                                            stopped(r, "Groups helper repeated a page; previous inventory retained"@)
                                        } else if self.requests >= MAX_REQUESTS {
                                            stopped(
                                                r,
                                                "Groups helper exceeded its page limit; previous inventory retained"@,
                                            )
                                        } else {
                                            &&& r.0.stage == HelperStage::Requesting
                                            &&& groups_view(r.0.groups@) == groups_view(self.groups@) + gs
                                            &&& strings_view(r.0.cursors@) == strings_view(self.cursors@).push(n)
                                            &&& r.0.total_bytes == total
                                            &&& r.1 matches HelperAction::Request { cursor } && cursor matches Some(
                                                c,
                                            ) && c@ == n
                                        },
                                    }
                                },
                            },
                        }
                    }
                },
            },
    {
        let mut s = self;
        match event {
            HelperEvent::Canceled => stop(s, "Google Groups update canceled"),
            HelperEvent::NoToken(m) => stop(s, m.as_str()),
            HelperEvent::Unreachable => stop(
                s,
                "My Groups request failed or timed out. Retry; previous inventory was retained.",
            ),
            HelperEvent::Refused(status) => stop(s, refusal_message(status)),
            HelperEvent::Unreadable => stop(s, "Unable to read Groups helper report"),
            HelperEvent::Answered { length, reply } => {
                let total = s.total_bytes.saturating_add(length);
                if total > TOTAL_LIMIT_BYTES || length > PAGE_LIMIT_BYTES {
                    return stop(s, "Groups helper report is too large; previous inventory retained");
                }
                let rep = match reply {
                    None => {
                        return stop(s, "Invalid Groups helper response");
                    },
                    Some(rep) => rep,
                };
                let (page, next) = match parse(rep, s.account.as_str()) {
                    Err(m) => {
                        return stop(s, m.as_str());
                    },
                    Ok(x) => x,
                };
                if !absorb_new_groups(&mut s.groups, &page) {
                    return stop(s, "Groups changed during update; retry. Previous inventory retained.");
                }
                match next {
                    None => {
                        let snapshot = crate::google::groups::Snapshot { account: s.account.clone(), groups: s.groups };
                        (
                            HelperFetch {
                                account: s.account,
                                stage: HelperStage::Done,
                                groups: Vec::new(),
                                cursors: s.cursors,
                                total_bytes: total,
                                requests: s.requests,
                            },
                            HelperAction::Finish(Ok(snapshot)),
                        )
                    },
                    Some(n) => {
                        if crate::text::listed(&s.cursors, n.as_str()) {
                            return stop(s, "Groups helper repeated a page; previous inventory retained");
                        }
                        if s.requests >= MAX_REQUESTS {
                            return stop(s, "Groups helper exceeded its page limit; previous inventory retained");
                        }
                        let ghost before = strings_view(s.cursors@);
                        s.cursors.push(n.clone());
                        assert(strings_view(s.cursors@) =~= before.push(n@));
                        s.total_bytes = total;
                        s.requests = s.requests + 1;
                        (s, HelperAction::Request { cursor: Some(n) })
                    },
                }
            },
        }
    }
}

} // verus!
