use josh_proxy::changes::{change_ids_to_refs, Change};
use josh_proxy::error::ProxyError;
use josh_proxy::oid::Oid;
use josh_proxy::refs::{baseref_and_options, ref_with_options};

fn oid(hex: &str) -> Oid {
    Oid::parse(hex).unwrap()
}

fn change(author: &str, id: Option<&str>, commit: &str) -> Change {
    Change {
        author: author.to_string(),
        id: id.map(|s| s.to_string()),
        commit: oid(commit),
    }
}

#[test]
fn review_push_with_options() {
    let (baseref, push_to, options, for_review) =
        baseref_and_options("refs/for/master%r=alice,wip").unwrap();
    assert_eq!(baseref, "refs/heads/master");
    assert_eq!(push_to, "refs/for/master");
    assert_eq!(options, vec!["r=alice".to_string(), "wip".to_string()]);
    assert!(for_review);
}

#[test]
fn drafts_push_lands_on_heads() {
    let (baseref, push_to, options, for_review) = baseref_and_options("refs/drafts/feature").unwrap();
    assert_eq!(baseref, "refs/heads/feature");
    assert_eq!(push_to, "refs/drafts/feature");
    assert!(options.is_empty());
    assert!(!for_review);
}

#[test]
fn plain_branch_push_is_kept() {
    let (baseref, push_to, options, for_review) = baseref_and_options("refs/heads/main").unwrap();
    assert_eq!(baseref, "refs/heads/main");
    assert_eq!(push_to, "refs/heads/main");
    assert!(options.is_empty());
    assert!(!for_review);
}

#[test]
fn empty_option_list_after_percent() {
    let (_, push_to, options, _) = baseref_and_options("refs/heads/a%").unwrap();
    assert_eq!(push_to, "refs/heads/a");
    assert_eq!(options, vec!["".to_string()]);
}

#[test]
fn only_the_first_percent_splits() {
    let (_, push_to, options, _) = baseref_and_options("x%a%b,c").unwrap();
    assert_eq!(push_to, "x");
    assert_eq!(options, vec!["a%b".to_string(), "c".to_string()]);
}

#[test]
fn prefix_for_matches_longer_words_too() {
    // `refs/for` is matched as a plain prefix, as `str::starts_with` does.
    let (baseref, _, _, for_review) = baseref_and_options("refs/foreign").unwrap();
    assert_eq!(baseref, "refs/headseign");
    assert!(for_review);
}

#[test]
fn pushed_name_is_rebuilt_from_its_parts() {
    for name in ["refs/for/master%r=alice,wip", "refs/heads/main", "a%", "x%a%b,c", "%,,"] {
        let (_, push_to, options, _) = baseref_and_options(name).unwrap();
        assert_eq!(ref_with_options(&push_to, &options), name);
    }
}

const C1: &str = "1111111111111111111111111111111111111111";
const C2: &str = "2222222222222222222222222222222222222222";
const C3: &str = "3333333333333333333333333333333333333333";

#[test]
fn stacked_changes_get_one_ref_each() {
    let changes = vec![
        change("a@b.c", Some("I1"), C1),
        change("other@x.y", Some("I9"), C2),
        change("a@b.c", Some("I2"), C3),
    ];
    let refs = change_ids_to_refs("refs/heads/main".to_string(), "a@b.c".to_string(), changes)
        .unwrap();
    assert_eq!(refs.len(), 2);
    assert_eq!(refs[0].0, "refs/heads/@changes/main/a@b.c/I1");
    assert_eq!(refs[0].1.as_str(), C1);
    assert_eq!(refs[0].2, "I1");
    assert_eq!(refs[1].0, "refs/heads/@changes/main/a@b.c/I2");
    assert_eq!(refs[1].1.as_str(), C3);
    assert_eq!(refs[1].2, "I2");
    assert_ne!(refs[0].0, refs[1].0);
}

#[test]
fn only_the_first_refs_heads_is_dropped() {
    let refs = change_ids_to_refs(
        "x/refs/heads/y".to_string(),
        "a@b".to_string(),
        vec![change("a@b", Some("I"), C1)],
    )
    .unwrap();
    assert_eq!(refs[0].0, "refs/heads/@changes/x/y/a@b/I");
}

#[test]
fn author_must_be_an_email_address() {
    let r = change_ids_to_refs("refs/heads/main".to_string(), "alice".to_string(), vec![]);
    let e = r.unwrap_err();
    assert!(matches!(e, ProxyError::AuthorNotEmail));
    assert_eq!(
        e.message(),
        "Push option 'author' needs to be set to a valid email address"
    );
}

#[test]
fn change_without_id_is_refused() {
    let r = change_ids_to_refs(
        "refs/heads/main".to_string(),
        "a@b".to_string(),
        vec![change("a@b", Some("I1"), C1), change("a@b", None, C2)],
    );
    let e = r.unwrap_err();
    assert!(matches!(&e, ProxyError::MissingChangeId(c) if c.as_str() == C2));
    assert_eq!(e.message(), format!("rejecting to push {} without Change-Id", C2));
}

#[test]
fn change_id_with_at_is_refused() {
    let r = change_ids_to_refs(
        "refs/heads/main".to_string(),
        "a@b".to_string(),
        vec![change("a@b", Some("I@1"), C1)],
    );
    let e = r.unwrap_err();
    assert!(matches!(e, ProxyError::ChangeIdHasAt));
    assert_eq!(e.message(), "Change-Id must not contain '@'");
}

#[test]
fn duplicate_change_id_is_refused() {
    let r = change_ids_to_refs(
        "refs/heads/main".to_string(),
        "a@b".to_string(),
        vec![
            change("a@b", Some("I1"), C1),
            change("a@b", Some("I2"), C2),
            change("a@b", Some("I1"), C3),
        ],
    );
    let e = r.unwrap_err();
    assert!(matches!(&e, ProxyError::DuplicateChangeId(c) if c.as_str() == C3));
    assert_eq!(e.message(), format!("rejecting to push {} with duplicate Change-Id", C3));
}

#[test]
fn changes_of_other_authors_are_not_checked() {
    let r = change_ids_to_refs(
        "refs/heads/main".to_string(),
        "a@b".to_string(),
        vec![change("c@d", None, C1), change("a@b", Some("I1"), C2)],
    );
    assert_eq!(r.unwrap().len(), 1);
}

#[test]
fn first_fault_in_order_is_reported() {
    let r = change_ids_to_refs(
        "refs/heads/main".to_string(),
        "a@b".to_string(),
        vec![change("a@b", Some("x@y"), C1), change("a@b", None, C2)],
    );
    assert!(matches!(r.unwrap_err(), ProxyError::ChangeIdHasAt));
}

#[test]
fn oid_parse_follows_libgit2() {
    let upper = Oid::parse("ABCDEF0123456789ABCDEF0123456789ABCDEF01").unwrap();
    assert_eq!(upper.as_str(), "abcdef0123456789abcdef0123456789abcdef01");
    let short = Oid::parse("abc").unwrap();
    assert_eq!(short.as_str(), "abc0000000000000000000000000000000000000");
    assert!(Oid::parse("").is_err());
    assert!(Oid::parse("xyz").is_err());
    assert!(Oid::parse("00000000000000000000000000000000000000000").is_err());
    assert!(Oid::zero().is_zero());
    assert_eq!(Oid::zero().as_str(), "0000000000000000000000000000000000000000");
    assert!(!oid(C1).is_zero());
    assert!(oid(C1).same_as(&oid(C1)));
    assert!(!oid(C1).same_as(&oid(C2)));
}
