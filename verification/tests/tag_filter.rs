use boreal::database::tag_filter::{json, selected, terms};

#[test]
fn predicates_are_conjoined_and_normalized() {
    let has: &[&str] = &["keep", "review"];
    assert!(boreal::database::tag_filter::matches("keep,review,!remove", has));
    assert!(!boreal::database::tag_filter::matches("keep,!review", has));
    assert!(!boreal::database::tag_filter::matches("keep,missing", has));
    assert!(boreal::database::tag_filter::matches(" , ! , keep, keep ", has));
    assert!(boreal::database::tag_filter::matches("", has));
    assert!(selected("keep,!review", "review", true));
    assert!(!selected("keeper", "keep", false));
}

#[test]
fn terms_are_trimmed_and_negations_marked_in_order() {
    let t = terms(" keep, !review ,keep,, ! ");
    assert_eq!(
        t,
        vec![(false, "keep".to_string()), (true, "review".to_string()), (false, "keep".to_string())]
    );
}

#[test]
fn an_excluded_tag_rejects_entries_that_carry_it() {
    assert!(!boreal::database::tag_filter::matches("!secret", &["secret"]));
    assert!(boreal::database::tag_filter::matches("!secret", &["public"]));
}

#[test]
fn predicates_are_listed_as_json() {
    assert_eq!(json(" team, !archive ,, ! "), "[[false,\"team\"],[true,\"archive\"]]");
    assert_eq!(json(""), "[]");
}
