use boreal::google::groups::{
    members_unlisted, request_failure, request_query, retry_delay, ApiErrorBody, DirectoryFetch, FetchAction, FetchEvent,
    FetchRequest,
};
use boreal::google::my_groups::{
    refusal_message, HelperAction, HelperEvent, HelperFetch, HelperPage, HelperReply, HelperStage, ReportGroup,
    ReportMember,
};

fn page(groups: &[&str], next: Option<&str>) -> HelperReply {
    HelperReply::Page(HelperPage {
        schema: 1,
        account: "Me@Example.test".into(),
        groups: groups
            .iter()
            .map(|email| ReportGroup {
                email: email.to_string(),
                members: vec![ReportMember { email: "user@example.test".into(), role: "MEMBER".into(), kind: "USER".into() }],
                members_unavailable: false,
                self_role: "OWNER".into(),
            })
            .collect(),
        next: next.map(str::to_string),
    })
}

fn ended(action: HelperAction) -> String {
    match action {
        HelperAction::Finish(Err(m)) => m,
        other => panic!("{other:?}"),
    }
}

#[test]
fn helper_pages_are_joined_until_the_last() {
    let (fetch, action) = HelperFetch::start("me@example.test".into());
    assert!(matches!(action, HelperAction::Request { cursor: None }));
    let (fetch, action) =
        fetch.step(HelperEvent::Answered { length: 100, reply: Some(page(&["a@example.test"], Some("\"c1\""))) });
    assert!(matches!(action, HelperAction::Request { cursor: Some(ref c) } if c == "\"c1\""));
    assert_eq!(fetch.total_bytes, 100);
    assert_eq!(fetch.requests, 2);
    let (fetch, action) = fetch.step(HelperEvent::Answered { length: 50, reply: Some(page(&["b@example.test"], None)) });
    assert_eq!(fetch.stage, HelperStage::Done);
    match action {
        HelperAction::Finish(Ok(snapshot)) => {
            assert_eq!(snapshot.account, "me@example.test");
            assert_eq!(snapshot.groups.len(), 2);
            assert_eq!(snapshot.groups[1].email, "b@example.test");
            assert!(snapshot.groups[0].id.starts_with("apps-"));
        }
        other => panic!("{other:?}"),
    }
}

#[test]
fn helper_snapshots_refuse_repeats_size_and_errors() {
    let first = || HelperFetch::start("me@example.test".into()).0;
    let (fetch, _) = first().step(HelperEvent::Answered { length: 10, reply: Some(page(&["a@example.test"], Some("1"))) });
    let (_, action) = fetch.step(HelperEvent::Answered { length: 10, reply: Some(page(&["A@example.test"], None)) });
    assert_eq!(ended(action), "Groups changed during update; retry. Previous inventory retained.");
    let (fetch, _) = first().step(HelperEvent::Answered { length: 10, reply: Some(page(&["a@example.test"], Some("1"))) });
    let (_, action) = fetch.step(HelperEvent::Answered { length: 10, reply: Some(page(&["b@example.test"], Some("1"))) });
    assert_eq!(ended(action), "Groups helper repeated a page; previous inventory retained");
    let (_, action) = first().step(HelperEvent::Answered { length: 8 * 1024 * 1024 + 1, reply: None });
    assert_eq!(ended(action), "Groups helper report is too large; previous inventory retained");
    let (_, action) = first().step(HelperEvent::Answered { length: 3, reply: None });
    assert_eq!(ended(action), "Invalid Groups helper response");
    let (_, action) = first().step(HelperEvent::Answered { length: 3, reply: Some(HelperReply::Failed) });
    assert!(ended(action).starts_with("The My Groups helper could not finish."));
    let (_, action) = first().step(HelperEvent::Canceled);
    assert_eq!(ended(action), "Google Groups update canceled");
    let (_, action) = first().step(HelperEvent::Refused(404));
    assert_eq!(ended(action), refusal_message(404));
    assert!(refusal_message(404).starts_with("My Groups helper deployment was not found."));
    assert_eq!(refusal_message(500), "The My Groups service is temporarily unavailable. Retry the update.");
    let (_, action) = first().step(HelperEvent::NoToken("Connect Google".into()));
    assert_eq!(ended(action), "Connect Google");
}

#[test]
fn helper_snapshots_stop_at_the_page_limit() {
    let mut fetch = HelperFetch::start("me@example.test".into()).0;
    for k in 1..1000 {
        let (next, action) = fetch.step(HelperEvent::Answered { length: 1, reply: Some(page(&[], Some(&k.to_string()))) });
        assert!(matches!(action, HelperAction::Request { .. }));
        fetch = next;
    }
    assert_eq!(fetch.requests, 1000);
    let (_, action) = fetch.step(HelperEvent::Answered { length: 1, reply: Some(page(&[], Some("last"))) });
    assert_eq!(ended(action), "Groups helper exceeded its page limit; previous inventory retained");
}

#[test]
fn directory_requests_retry_rate_limits_and_server_errors_twice() {
    assert_eq!(retry_delay(429, 0), Some(1));
    assert_eq!(retry_delay(503, 1), Some(2));
    assert_eq!(retry_delay(503, 2), None);
    assert_eq!(retry_delay(404, 0), None);
    assert!(members_unlisted(403) && members_unlisted(404) && !members_unlisted(401));
    let body = ApiErrorBody { reasons: vec!["quotaExceeded".into()], message: None };
    assert_eq!(
        request_failure(403, &body, "groups.list"),
        "Google Groups rate limit or quota reached; retry later. (groups.list; HTTP 403.)"
    );
}

fn directory_group(id: &str, email: &str, name: &str) -> boreal::google::groups::Group {
    boreal::google::groups::Group { id: id.into(), email: email.into(), name: name.into(), ..Default::default() }
}

fn directory_member(id: &str, email: &str, role: &str, kind: &str) -> boreal::google::groups::Member {
    boreal::google::groups::Member { id: id.into(), email: email.into(), role: role.into(), kind: kind.into(), status: String::new() }
}

fn query_of(action: &FetchAction) -> Vec<(String, String)> {
    match action {
        FetchAction::Request(request) => request_query(request),
        other => panic!("{other:?}"),
    }
}

#[test]
fn paginates_own_groups_and_members_and_marks_restricted_lists() {
    let (fetch, action) = DirectoryFetch::start("me@example.test".into());
    let first = query_of(&action);
    assert!(first.contains(&("userKey".to_string(), "me@example.test".to_string())));
    assert!(!first.iter().any(|(k, _)| k == "customer"));
    let (fetch, action) = fetch.step(FetchEvent::GroupsPage {
        groups: vec![directory_group("g1", "team@example.test", "Team")],
        next: "groups-2".into(),
    });
    assert!(query_of(&action).contains(&("pageToken".to_string(), "groups-2".to_string())));
    let (fetch, action) =
        fetch.step(FetchEvent::GroupsPage { groups: vec![directory_group("g2", "restricted@example.test", "")], next: String::new() });
    assert!(query_of(&action).contains(&("includeDerivedMembership".to_string(), "false".to_string())));
    assert!(matches!(&action, FetchAction::Request(FetchRequest::Members { group_id, .. }) if group_id == "g1"));
    let (fetch, action) = fetch.step(FetchEvent::MembersPage {
        members: vec![directory_member("u1", "owner@example.test", "OWNER", "USER")],
        next: "members-2".into(),
    });
    assert!(query_of(&action).contains(&("pageToken".to_string(), "members-2".to_string())));
    let (fetch, _) = fetch.step(FetchEvent::MembersPage {
        members: vec![directory_member("nested", "nested@example.test", "MEMBER", "GROUP")],
        next: String::new(),
    });
    assert!(members_unlisted(403));
    let (_, action) = fetch.step(FetchEvent::MembersUnavailable);
    match action {
        FetchAction::Finish(Ok(snapshot)) => {
            assert_eq!(snapshot.groups.len(), 2);
            assert_eq!(snapshot.groups[0].members.len(), 2);
            assert!(snapshot.groups[1].members_unavailable);
            assert!(snapshot.groups[1].members.is_empty());
        }
        other => panic!("{other:?}"),
    }
}

#[test]
fn failed_or_repeated_group_pages_do_not_return_partial_snapshots() {
    let (fetch, _) = DirectoryFetch::start("me@example.test".into());
    let (fetch, _) = fetch.step(FetchEvent::GroupsPage {
        groups: vec![directory_group("g", "g@example.test", "")],
        next: "again".into(),
    });
    let (_, action) = fetch.step(FetchEvent::GroupsPage { groups: vec![], next: "again".into() });
    assert!(matches!(action, FetchAction::Finish(Err(_))));
    let body = ApiErrorBody { reasons: vec![], message: Some("secret".into()) };
    let error = request_failure(403, &body, "groups.list");
    assert!(!error.contains("secret"));
}
