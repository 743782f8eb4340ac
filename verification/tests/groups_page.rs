use boreal::database::keeper::Tag;
use boreal::google::groups::{Group, Member};
use boreal::web::google_groups::{identity_map, page, GroupsPage, GroupsQuery};

fn member(id: &str, email: &str, role: &str) -> Member {
    Member { id: id.into(), email: email.into(), role: role.into(), kind: "USER".into(), status: "ACTIVE".into() }
}

fn groups() -> Vec<Group> {
    vec![
        Group { id: "g2".into(), name: "beta".into(), email: "b@example.test".into(), direct_members_count: "10".into(), members: vec![member("m1", "Zed@example.test", "MEMBER")], ..Default::default() },
        Group { id: "g1".into(), name: "Alpha".into(), email: "a@example.test".into(), direct_members_count: "9".into(), members: vec![member("m2", "amy@example.test", "OWNER"), member("m3", "", "member")], ..Default::default() },
    ]
}

#[test]
fn groups_are_searched_and_sorted() {
    let all = page(&groups(), &GroupsQuery::default(), &vec![]).unwrap();
    match all {
        GroupsPage::Groups(g) => assert_eq!(g.iter().map(|g| g.id.as_str()).collect::<Vec<_>>(), vec!["g1", "g2"]),
        other => panic!("unexpected {other:?}"),
    }
    let query = GroupsQuery { sort: "members".into(), direction: "desc".into(), ..Default::default() };
    match page(&groups(), &query, &vec![]).unwrap() {
        GroupsPage::Groups(g) => assert_eq!(g[0].id, "g2"),
        other => panic!("unexpected {other:?}"),
    }
    let query = GroupsQuery { q: " ZED ".into(), ..Default::default() };
    match page(&groups(), &query, &vec![]).unwrap() {
        GroupsPage::Groups(g) => assert_eq!(g.len(), 1),
        other => panic!("unexpected {other:?}"),
    }
    let query = GroupsQuery { role: "owner".into(), ..Default::default() };
    match page(&groups(), &query, &vec![]).unwrap() {
        GroupsPage::Groups(g) => assert_eq!(g[0].id, "g1"),
        other => panic!("unexpected {other:?}"),
    }
}

#[test]
fn an_opened_group_lists_its_members_with_identities() {
    let tags = vec![Tag { slug: "staff".into(), name: "Staff".into() }];
    let identities = identity_map(&vec![(vec![" AMY@example.test ".into()], vec!["staff".into()])], &tags);
    assert_eq!(identities[0].0, "amy@example.test");
    let query = GroupsQuery { group: "g1".into(), ..Default::default() };
    match page(&groups(), &query, &identities).unwrap() {
        GroupsPage::Members { current_name, members_unavailable, members } => {
            assert_eq!(current_name, "Alpha");
            assert!(!members_unavailable);
            assert_eq!(members.iter().map(|m| m.label.as_str()).collect::<Vec<_>>(), vec!["amy@example.test", "m3"]);
            assert!(members[0].known);
            assert_eq!(members[0].tags[0].slug, "staff");
            assert!(!members[1].known);
        },
        other => panic!("unexpected {other:?}"),
    }
    assert!(page(&groups(), &GroupsQuery { group: "nope".into(), ..Default::default() }, &identities).is_none());
}
