use boreal::google::my_groups::{parse, HelperPage, HelperReply, ReportGroup, ReportMember};

fn report(account: &str) -> HelperReply {
    HelperReply::Page(HelperPage {
        schema: 1,
        account: account.into(),
        groups: vec![ReportGroup {
            email: "team@example.test".into(),
            members: vec![ReportMember { email: "user@example.test".into(), role: "BANNED".into(), kind: "USER".into() }],
            members_unavailable: false,
            self_role: "PENDING".into(),
        }],
        next: None,
    })
}

#[test]
fn helper_reports_are_account_bound_and_allowlisted() {
    let (groups, next) = parse(report("me@example.test"), "me@example.test").unwrap();
    assert_eq!(groups[0].members[0].status, "BANNED");
    assert!(groups[0].direct_members_count.is_empty());
    assert!(next.is_none());
    assert!(parse(report("me@example.test"), "other@example.test").is_err());
    assert!(parse(HelperReply::Failed, "me").err().unwrap().find("secret").is_none());
}
