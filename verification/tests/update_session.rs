use josh_proxy::changes::Change;
use josh_proxy::error::ProxyError;
use josh_proxy::oid::Oid;
use josh_proxy::update::{
    RefUpdate, RepoUpdate, Stage, UnapplyResult, UpdateAction, UpdateEvent, UpdateSession,
};

const OLD: &str = "1111111111111111111111111111111111111111";
const NEW: &str = "2222222222222222222222222222222222222222";
const TARGET: &str = "3333333333333333333333333333333333333333";
const BACK: &str = "4444444444444444444444444444444444444444";
const ZERO: &str = "0000000000000000000000000000000000000000";

fn oid(hex: &str) -> Oid {
    Oid::parse(hex).unwrap()
}

fn update(refname: &str, old: &str, stacked: bool) -> RepoUpdate {
    RepoUpdate {
        refs: vec![RefUpdate {
            refname: refname.to_string(),
            old: old.to_string(),
            new: NEW.to_string(),
        }],
        remote_url: "https://h/r.git".to_string(),
        auth: "h".to_string(),
        port: "8000".to_string(),
        filter_spec: ":/sub".to_string(),
        base_ns: "r.git".to_string(),
        git_ns: "request_x".to_string(),
        git_dir: "/data".to_string(),
        stacked_changes: stacked,
        context_propagator: vec![],
    }
}

fn finish_ok(a: UpdateAction) -> String {
    match a {
        UpdateAction::Finish(Ok(t)) => t,
        _ => panic!("expected a successful finish"),
    }
}

fn finish_err(a: UpdateAction) -> ProxyError {
    match a {
        UpdateAction::Finish(Err(e)) => e,
        _ => panic!("expected a failed finish"),
    }
}

/// Runs a plain push up to the first `Push` and checks each request.
fn run_to_push(s: &mut UpdateSession, first: UpdateAction, merge: bool) -> UpdateAction {
    match first {
        UpdateAction::OpenTransaction { upstream_prefix } => {
            assert_eq!(upstream_prefix, "refs/josh/upstream/r.git/")
        }
        _ => panic!("expected the transaction to be opened"),
    }
    match s.step(UpdateEvent::Opened) {
        UpdateAction::ResolveTarget { name } => assert_eq!(name, "refs/heads/main"),
        _ => panic!("expected the target to be resolved"),
    }
    match s.step(UpdateEvent::TargetResolved(Some(oid(TARGET)))) {
        UpdateAction::ParseFilter { spec } => assert_eq!(spec, ":/sub"),
        _ => panic!("expected the filter to be parsed"),
    }
    match s.step(UpdateEvent::FilterParsed) {
        UpdateAction::Unapply { original_target, old, new, merge: m, reparent_orphans, collect_changes } => {
            assert_eq!(original_target.as_str(), TARGET);
            assert_eq!(old.as_str(), OLD);
            assert_eq!(new.as_str(), NEW);
            assert_eq!(m, merge);
            assert!(reparent_orphans.is_none());
            assert!(!collect_changes);
        }
        _ => panic!("expected the history to be filtered back"),
    }
    let a = s.step(UpdateEvent::Unapplied { result: UnapplyResult::Done(oid(BACK)), changes: vec![] });
    if merge {
        match a {
            UpdateAction::Merge { target_name, commit, message } => {
                assert_eq!(target_name, "refs/heads/main");
                assert_eq!(commit.as_str(), BACK);
                assert_eq!(message, "Merge from :/sub");
            }
            _ => panic!("expected a merge"),
        }
        s.step(UpdateEvent::Merged(Some(oid(TARGET))))
    } else {
        a
    }
}

#[test]
fn plain_push_round_trip() {
    let u = update("refs/heads/main%o1,o2", OLD, false);
    let (mut s, a) = UpdateSession::start(&u, "{}");
    match run_to_push(&mut s, a, false) {
        UpdateAction::Push { refname, oid: o, display_name, force } => {
            assert_eq!(refname, "refs/heads/main%o1,o2");
            assert_eq!(o.as_str(), BACK);
            assert_eq!(display_name, "JOSH_PUSH");
            assert!(!force);
        }
        _ => panic!("expected a push"),
    }
    match s.step(UpdateEvent::Pushed { text: "pushed".to_string(), status: 0 }) {
        UpdateAction::ComputeWarnings { oid: o } => assert_eq!(o.as_str(), BACK),
        _ => panic!("expected warnings to be computed"),
    }
    match s.step(UpdateEvent::Warnings(vec![])) {
        UpdateAction::Reapply { oid: o } => assert_eq!(o.as_str(), BACK),
        _ => panic!("expected the filter to be applied again"),
    }
    let a = s.step(UpdateEvent::Reapplied { oid: oid(NEW), filter_id: "f".to_string() });
    assert_eq!(finish_ok(a), "pushed");
    assert_eq!(s.stage(), Stage::Done);
}

#[test]
fn rewritten_push_is_reported() {
    let u = update("refs/heads/main", OLD, false);
    let (mut s, a) = UpdateSession::start(&u, "{}");
    run_to_push(&mut s, a, false);
    s.step(UpdateEvent::Pushed { text: "ok".to_string(), status: 0 });
    s.step(UpdateEvent::Warnings(vec!["w1".to_string(), "w2".to_string()]));
    match s.step(UpdateEvent::Reapplied { oid: oid(TARGET), filter_id: "abc".to_string() }) {
        UpdateAction::WriteRewrite { name, oid: o } => {
            assert_eq!(name, format!("refs/josh/rewrites/r.git/abc/r_{}", TARGET));
            assert_eq!(o.as_str(), TARGET);
        }
        _ => panic!("expected the rewrite to be recorded"),
    }
    let text = finish_ok(s.step(UpdateEvent::RewriteWritten));
    assert_eq!(text, format!("ok\nwarnings:\nw1\nw2\nREWRITE({} -> {})", NEW, TARGET));
}

#[test]
fn merge_option_merges_before_pushing() {
    let u = update("refs/heads/main", OLD, false);
    let (mut s, a) = UpdateSession::start(&u, "{\"merge\": \"\"}");
    match run_to_push(&mut s, a, true) {
        UpdateAction::Push { oid: o, .. } => assert_eq!(o.as_str(), TARGET),
        _ => panic!("expected a push"),
    }
}

#[test]
fn failed_merge_is_reported() {
    let u = update("refs/heads/main", OLD, false);
    let (mut s, _) = UpdateSession::start(&u, "{\"merge\": \"1\"}");
    s.step(UpdateEvent::Opened);
    s.step(UpdateEvent::TargetResolved(Some(oid(TARGET))));
    s.step(UpdateEvent::FilterParsed);
    s.step(UpdateEvent::Unapplied { result: UnapplyResult::Done(oid(BACK)), changes: vec![] });
    let e = finish_err(s.step(UpdateEvent::Merged(None)));
    assert_eq!(e.message(), "josh_merge failed");
}

#[test]
fn zero_old_commit_uses_the_request_copy() {
    let u = update("refs/for/main", ZERO, false);
    let (mut s, _) = UpdateSession::start(&u, "{\"base\": \"dev\", \"create\": \"\"}");
    match s.step(UpdateEvent::Opened) {
        UpdateAction::ResolveRevision { rev } => {
            assert_eq!(rev, "refs/namespaces/request_x/refs/heads/main")
        }
        _ => panic!("expected the revision to be resolved"),
    }
    match s.step(UpdateEvent::RevisionResolved(Some(oid(OLD)))) {
        UpdateAction::CheckBranch { name } => assert_eq!(name, "refs/heads/dev"),
        _ => panic!("expected the base branch to be checked"),
    }
    match s.step(UpdateEvent::BranchChecked(false)) {
        UpdateAction::ResolveTarget { name } => assert_eq!(name, "dev"),
        _ => panic!("expected the target to be resolved"),
    }
    s.step(UpdateEvent::TargetResolved(Some(oid(TARGET))));
    match s.step(UpdateEvent::FilterParsed) {
        UpdateAction::Unapply { old, reparent_orphans, .. } => {
            assert_eq!(old.as_str(), OLD);
            assert_eq!(reparent_orphans.unwrap().as_str(), TARGET);
        }
        _ => panic!("expected the history to be filtered back"),
    }
}

#[test]
fn unresolved_zero_commit_stays_zero() {
    let u = update("refs/heads/main", ZERO, false);
    let (mut s, _) = UpdateSession::start(&u, "{\"base\": \"dev\"}");
    s.step(UpdateEvent::Opened);
    s.step(UpdateEvent::RevisionResolved(None));
    match s.step(UpdateEvent::BranchChecked(true)) {
        UpdateAction::ResolveTarget { name } => assert_eq!(name, "refs/heads/dev"),
        _ => panic!("expected the target to be resolved"),
    }
    s.step(UpdateEvent::TargetResolved(Some(oid(TARGET))));
    match s.step(UpdateEvent::FilterParsed) {
        UpdateAction::Unapply { old, .. } => assert_eq!(old.as_str(), ZERO),
        _ => panic!("expected the history to be filtered back"),
    }
}

#[test]
fn missing_target_is_reported() {
    let u = update("refs/heads/main", OLD, false);
    let (mut s, _) = UpdateSession::start(&u, "{}");
    s.step(UpdateEvent::Opened);
    let e = finish_err(s.step(UpdateEvent::TargetResolved(None)));
    assert!(matches!(&e, ProxyError::TargetMissing(b) if b == "refs/heads/main"));
    assert!(e.message().starts_with("Reference \"refs/heads/main\" does not exist on remote."));
}

#[test]
fn stacked_review_push() {
    let u = update("refs/for/main", OLD, true);
    let (mut s, _) = UpdateSession::start(&u, "{\"author\": \"a@b.c\"}");
    s.step(UpdateEvent::Opened);
    s.step(UpdateEvent::TargetResolved(Some(oid(TARGET))));
    match s.step(UpdateEvent::FilterParsed) {
        UpdateAction::Unapply { collect_changes, .. } => assert!(collect_changes),
        _ => panic!("expected the history to be filtered back"),
    }
    let changes = vec![Change {
        author: "a@b.c".to_string(),
        id: Some("I1".to_string()),
        commit: oid(OLD),
    }];
    match s.step(UpdateEvent::Unapplied { result: UnapplyResult::Done(oid(BACK)), changes }) {
        UpdateAction::Push { refname, oid: o, display_name, force } => {
            assert_eq!(refname, "refs/heads/@heads/main/a@b.c");
            assert_eq!(o.as_str(), BACK);
            assert_eq!(display_name, "main");
            assert!(force);
        }
        _ => panic!("expected the stack to be pushed"),
    }
    s.step(UpdateEvent::Pushed { text: "one".to_string(), status: 0 });
    match s.step(UpdateEvent::Warnings(vec![])) {
        UpdateAction::Push { refname, oid: o, display_name, force } => {
            assert_eq!(refname, "refs/heads/@changes/main/a@b.c/I1");
            assert_eq!(o.as_str(), OLD);
            assert_eq!(display_name, "I1");
            assert!(force);
        }
        _ => panic!("expected the change to be pushed"),
    }
    s.step(UpdateEvent::Pushed { text: "two".to_string(), status: 0 });
    s.step(UpdateEvent::Warnings(vec![]));
    let text = finish_ok(s.step(UpdateEvent::Reapplied { oid: oid(NEW), filter_id: "f".to_string() }));
    assert_eq!(text, "one\ntwo");
}

#[test]
fn stacked_push_without_author_is_refused() {
    let u = update("refs/for/main", OLD, true);
    let (mut s, _) = UpdateSession::start(&u, "{}");
    s.step(UpdateEvent::Opened);
    s.step(UpdateEvent::TargetResolved(Some(oid(TARGET))));
    s.step(UpdateEvent::FilterParsed);
    let e = finish_err(s.step(UpdateEvent::Unapplied {
        result: UnapplyResult::Done(oid(BACK)),
        changes: vec![],
    }));
    assert!(matches!(e, ProxyError::AuthorNotEmail));
}

#[test]
fn failed_push_is_reported() {
    let u = update("refs/heads/main", OLD, false);
    let (mut s, a) = UpdateSession::start(&u, "{}");
    run_to_push(&mut s, a, false);
    let e = finish_err(s.step(UpdateEvent::Pushed { text: "denied".to_string(), status: 1 }));
    assert_eq!(e.message(), "denied");
}

#[test]
fn unapply_refusals_are_reported() {
    for (result, text) in [
        (UnapplyResult::BranchDoesNotExist, "branch does not exist on remote".to_string()),
        (UnapplyResult::RejectMerge("no".to_string()), "no".to_string()),
        (
            UnapplyResult::RejectAmend("c".to_string()),
            "rejecting to amend \"c\" with conflicting changes".to_string(),
        ),
    ] {
        let u = update("refs/heads/main", OLD, false);
        let (mut s, _) = UpdateSession::start(&u, "{}");
        s.step(UpdateEvent::Opened);
        s.step(UpdateEvent::TargetResolved(Some(oid(TARGET))));
        s.step(UpdateEvent::FilterParsed);
        let e = finish_err(s.step(UpdateEvent::Unapplied { result, changes: vec![] }));
        assert_eq!(e.message(), text);
    }
}

#[test]
fn bad_commit_ids_are_refused() {
    let u = update("refs/heads/main", "not-hex", false);
    let (mut s, _) = UpdateSession::start(&u, "{}");
    assert!(matches!(finish_err(s.step(UpdateEvent::Opened)), ProxyError::BadOid(_)));
    let mut u = update("refs/heads/main", OLD, false);
    u.refs[0].new = "zz".to_string();
    let (mut s, _) = UpdateSession::start(&u, "{}");
    s.step(UpdateEvent::Opened);
    s.step(UpdateEvent::TargetResolved(Some(oid(TARGET))));
    assert!(matches!(finish_err(s.step(UpdateEvent::FilterParsed)), ProxyError::BadOid(_)));
}

#[test]
fn no_refs_means_empty_answer() {
    let mut u = update("refs/heads/main", OLD, false);
    u.refs.clear();
    let (s, a) = UpdateSession::start(&u, "{}");
    assert_eq!(finish_ok(a), "");
    assert_eq!(s.stage(), Stage::Done);
}

#[test]
fn bad_push_options_end_the_session() {
    let u = update("refs/heads/main", OLD, false);
    let (s, a) = UpdateSession::start(&u, "not json");
    assert!(matches!(finish_err(a), ProxyError::BadPushOptions(_)));
    assert_eq!(s.stage(), Stage::Done);
}

#[test]
fn failed_step_ends_the_session() {
    let u = update("refs/heads/main", OLD, false);
    let (mut s, _) = UpdateSession::start(&u, "{}");
    let e = finish_err(s.step(UpdateEvent::Failed("cannot open".to_string())));
    assert_eq!(e.message(), "cannot open");
    assert_eq!(s.stage(), Stage::Done);
    let e = finish_err(s.step(UpdateEvent::Opened));
    assert!(matches!(e, ProxyError::UnexpectedEvent));
}

#[test]
fn unexpected_event_ends_the_session() {
    let u = update("refs/heads/main", OLD, false);
    let (mut s, _) = UpdateSession::start(&u, "{}");
    let e = finish_err(s.step(UpdateEvent::FilterParsed));
    assert!(matches!(e, ProxyError::UnexpectedEvent));
    assert_eq!(s.stage(), Stage::Done);
}
