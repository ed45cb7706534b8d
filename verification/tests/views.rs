use josh_proxy::assoc::PairMap;
use josh_proxy::oid::Oid;
use josh_proxy::view::{
    apply_view_to_branch, BranchAction, BranchEvent, BranchStage, BranchViewRun, JoinAction, JoinEvent, JoinWalk, UnapplyAction, UnapplyEvent,
    UnapplyView, UnapplyWalk, ViewCache, ViewCaches, ViewWalk, ViewWalkAction, ViewWalkEvent,
    WalkStage,
};

fn oid(c: char) -> Oid {
    Oid::parse(&c.to_string().repeat(40)).unwrap()
}

#[test]
fn cache_read_after_write() {
    let mut c = ViewCache::new();
    assert!(!c.contains(&oid('1')));
    c.insert(oid('1'), oid('a'));
    c.insert(oid('2'), oid('b'));
    assert_eq!(c.get(&oid('1')).unwrap().as_str(), oid('a').as_str());
    c.insert(oid('1'), oid('c'));
    assert_eq!(c.get(&oid('1')).unwrap().as_str(), oid('c').as_str());
    assert_eq!(c.get(&oid('2')).unwrap().as_str(), oid('b').as_str());
    assert!(c.get(&oid('3')).is_none());
}

#[test]
fn mapped_parents_keep_order_and_skip_unknown() {
    let mut c = ViewCache::new();
    c.insert(oid('1'), oid('a'));
    c.insert(oid('3'), oid('c'));
    let m = c.mapped_parents(&vec![oid('3'), oid('2'), oid('1')]);
    let hex: Vec<&str> = m.iter().map(|o| o.as_str()).collect();
    assert_eq!(hex, vec![oid('c').as_str(), oid('a').as_str()]);
}

#[test]
fn branch_view_plan_for_master() {
    let p = apply_view_to_branch("master", "abc").unwrap();
    let ns = "a9993e364706816aba3e25717850c26c9cd0d89d";
    assert_eq!(p.cache_key, "master--abc");
    assert_eq!(
        p.transforms,
        vec![
            ("refs/heads/master".to_string(), format!("refs/namespaces/{}/refs/heads/master", ns)),
            ("refs/heads/master".to_string(), format!("refs/namespaces/{}/HEAD", ns)),
        ]
    );
}

#[test]
fn branch_view_plan_for_other_branch() {
    let p = apply_view_to_branch("dev", "abc").unwrap();
    assert_eq!(p.transforms.len(), 1);
    assert_eq!(p.transforms[0].0, "refs/heads/dev");
    assert_eq!(
        p.transforms[0].1,
        "refs/namespaces/a9993e364706816aba3e25717850c26c9cd0d89d/refs/heads/dev"
    );
}

#[test]
fn dot_view_needs_nothing() {
    assert!(apply_view_to_branch("master", ".").is_none());
}

#[test]
fn cached_tip_is_answered_at_once() {
    let mut c = ViewCache::new();
    c.insert(oid('9'), oid('f'));
    let (w, a) = ViewWalk::start(c, oid('9'));
    match a {
        ViewWalkAction::Finish(Some(x)) => assert_eq!(x.as_str(), oid('f').as_str()),
        _ => panic!("expected the cached answer"),
    }
    assert_eq!(w.stage(), WalkStage::Done);
}

#[test]
fn view_walk_rewrites_and_reuses() {
    let (mut w, a) = ViewWalk::start(ViewCache::new(), oid('3'));
    assert!(matches!(a, ViewWalkAction::NextCommit));
    // Root commit 1: the view keeps it; rewritten to a.
    match w.step(ViewWalkEvent::Commit { id: oid('1'), parents: vec![] }) {
        ViewWalkAction::ApplyView { commit } => assert_eq!(commit.as_str(), oid('1').as_str()),
        _ => panic!("expected the view to be applied"),
    }
    match w.step(ViewWalkEvent::Applied(Some(oid('7')))) {
        ViewWalkAction::Rewrite { commit, parents, tree } => {
            assert_eq!(commit.as_str(), oid('1').as_str());
            assert!(parents.is_empty());
            assert_eq!(tree.as_str(), oid('7').as_str());
        }
        _ => panic!("expected a rewrite"),
    }
    assert!(matches!(w.step(ViewWalkEvent::Rewritten(oid('a'))), ViewWalkAction::NextCommit));
    // Commit 2 does not change the view's tree: it maps to a.
    w.step(ViewWalkEvent::Commit { id: oid('2'), parents: vec![oid('1')] });
    match w.step(ViewWalkEvent::Applied(Some(oid('d')))) {
        ViewWalkAction::ParentTree { parent } => assert_eq!(parent.as_str(), oid('a').as_str()),
        _ => panic!("expected the parent's tree to be asked for"),
    }
    assert!(matches!(w.step(ViewWalkEvent::ParentTreeIs(oid('d'))), ViewWalkAction::NextCommit));
    // Commit 3 changes it: rewritten onto a.
    w.step(ViewWalkEvent::Commit { id: oid('3'), parents: vec![oid('2')] });
    w.step(ViewWalkEvent::Applied(Some(oid('e'))));
    match w.step(ViewWalkEvent::ParentTreeIs(oid('d'))) {
        ViewWalkAction::Rewrite { commit, parents, tree } => {
            assert_eq!(commit.as_str(), oid('3').as_str());
            assert_eq!(parents.len(), 1);
            assert_eq!(parents[0].as_str(), oid('a').as_str());
            assert_eq!(tree.as_str(), oid('e').as_str());
        }
        _ => panic!("expected a rewrite"),
    }
    w.step(ViewWalkEvent::Rewritten(oid('b')));
    // A commit already in the cache is skipped.
    assert!(matches!(
        w.step(ViewWalkEvent::Commit { id: oid('1'), parents: vec![] }),
        ViewWalkAction::NextCommit
    ));
    match w.step(ViewWalkEvent::WalkEnded) {
        ViewWalkAction::Finish(Some(x)) => assert_eq!(x.as_str(), oid('b').as_str()),
        _ => panic!("expected the rewritten tip"),
    }
    let c = w.into_cache();
    assert_eq!(c.get(&oid('2')).unwrap().as_str(), oid('a').as_str());
}

#[test]
fn hidden_commits_are_skipped() {
    let (mut w, _) = ViewWalk::start(ViewCache::new(), oid('1'));
    w.step(ViewWalkEvent::Commit { id: oid('1'), parents: vec![] });
    assert!(matches!(w.step(ViewWalkEvent::Applied(None)), ViewWalkAction::NextCommit));
    assert!(matches!(w.step(ViewWalkEvent::WalkEnded), ViewWalkAction::Finish(None)));
}

#[test]
fn unapply_without_changes() {
    let (_, a) = UnapplyWalk::unapply_view(oid('c'), oid('1'), oid('1'));
    assert!(matches!(a, UnapplyAction::Finish(UnapplyView::NoChanges)));
}

#[test]
fn unapply_refuses_non_fast_forward() {
    let (mut w, a) = UnapplyWalk::unapply_view(oid('c'), oid('1'), oid('2'));
    match a {
        UnapplyAction::CheckDescendant { new, old } => {
            assert_eq!(new.as_str(), oid('2').as_str());
            assert_eq!(old.as_str(), oid('1').as_str());
        }
        _ => panic!("expected a descendant check"),
    }
    assert!(matches!(
        w.step(UnapplyEvent::IsDescendant(false)),
        UnapplyAction::Finish(UnapplyView::RejectNoFF)
    ));
}

#[test]
fn unapply_refuses_merges() {
    let (mut w, _) = UnapplyWalk::unapply_view(oid('c'), oid('1'), oid('2'));
    w.step(UnapplyEvent::IsDescendant(true));
    assert!(matches!(
        w.step(UnapplyEvent::Commit { id: oid('2'), parent_count: 2 }),
        UnapplyAction::Finish(UnapplyView::RejectMerge)
    ));
}

#[test]
fn unapply_walks_onto_current() {
    let (mut w, _) = UnapplyWalk::unapply_view(oid('c'), oid('1'), oid('3'));
    match w.step(UnapplyEvent::IsDescendant(true)) {
        UnapplyAction::Walk { range, hide } => {
            assert_eq!(range, format!("{}..{}", "1".repeat(40), "3".repeat(40)));
            assert_eq!(hide.as_str(), oid('1').as_str());
        }
        _ => panic!("expected the walk"),
    }
    match w.step(UnapplyEvent::Commit { id: oid('2'), parent_count: 1 }) {
        UnapplyAction::Unapply { commit, onto } => {
            assert_eq!(commit.as_str(), oid('2').as_str());
            assert_eq!(onto.as_str(), oid('c').as_str());
        }
        _ => panic!("expected the commit to be taken back"),
    }
    assert!(matches!(w.step(UnapplyEvent::Unapplied(Some(oid('d')))), UnapplyAction::NextCommit));
    match w.step(UnapplyEvent::Commit { id: oid('3'), parent_count: 1 }) {
        UnapplyAction::Unapply { onto, .. } => assert_eq!(onto.as_str(), oid('d').as_str()),
        _ => panic!("expected the commit to be taken back"),
    }
    w.step(UnapplyEvent::Unapplied(None));
    match w.step(UnapplyEvent::WalkEnded) {
        UnapplyAction::Finish(UnapplyView::Done(x)) => assert_eq!(x.as_str(), oid('d').as_str()),
        _ => panic!("expected the new tip"),
    }
}

#[test]
fn join_moves_each_commit() {
    let (mut w, a) = JoinWalk::join_to_subdir(oid('2'));
    assert!(matches!(a, JoinAction::NextCommit));
    match w.step(JoinEvent::Commit { id: oid('1'), parents: vec![], tree: oid('7') }) {
        JoinAction::Rewrite { commit, parents, tree } => {
            assert_eq!(commit.as_str(), oid('1').as_str());
            assert!(parents.is_empty());
            assert_eq!(tree.as_str(), oid('7').as_str());
        }
        _ => panic!("expected a rewrite"),
    }
    w.step(JoinEvent::Rewritten(oid('a')));
    match w.step(JoinEvent::Commit { id: oid('2'), parents: vec![oid('1')], tree: oid('e') }) {
        JoinAction::Rewrite { parents, .. } => assert_eq!(parents[0].as_str(), oid('a').as_str()),
        _ => panic!("expected a rewrite"),
    }
    w.step(JoinEvent::Rewritten(oid('b')));
    match w.step(JoinEvent::WalkEnded) {
        JoinAction::Finish(x) => assert_eq!(x.as_str(), oid('b').as_str()),
        _ => panic!("expected the moved tip"),
    }
}

#[test]
fn view_walk_keeps_earlier_entries() {
    let mut c = ViewCache::new();
    c.insert(oid('1'), oid('a'));
    let (mut w, _) = ViewWalk::start(c, oid('2'));
    w.step(ViewWalkEvent::Commit { id: oid('1'), parents: vec![] });
    w.step(ViewWalkEvent::Commit { id: oid('2'), parents: vec![oid('1')] });
    w.step(ViewWalkEvent::Applied(Some(oid('e'))));
    w.step(ViewWalkEvent::ParentTreeIs(oid('d')));
    w.step(ViewWalkEvent::Rewritten(oid('b')));
    w.step(ViewWalkEvent::WalkEnded);
    let c = w.into_cache();
    assert_eq!(c.get(&oid('1')).unwrap().as_str(), oid('a').as_str());
    assert_eq!(c.get(&oid('2')).unwrap().as_str(), oid('b').as_str());
}

#[test]
fn join_reports_moved_commits() {
    let (mut w, _) = JoinWalk::join_to_subdir(oid('1'));
    assert!(!w.moved(&oid('1')));
    w.step(JoinEvent::Commit { id: oid('1'), parents: vec![], tree: oid('7') });
    assert!(!w.moved(&oid('1')));
    w.step(JoinEvent::Rewritten(oid('a')));
    assert!(w.moved(&oid('1')));
    assert!(!w.moved(&oid('2')));
}

#[test]
fn caches_are_kept_per_branch_and_view() {
    let mut caches = ViewCaches::new();
    let fresh = caches.take("refs/heads/master--sub");
    assert!(!fresh.contains(&oid('1')));
    let mut c = ViewCache::new();
    c.insert(oid('1'), oid('a'));
    caches.put("refs/heads/master--sub".to_string(), c);
    let mut d = ViewCache::new();
    d.insert(oid('2'), oid('b'));
    caches.put("refs/heads/dev--sub".to_string(), d);
    let c = caches.take("refs/heads/master--sub");
    assert_eq!(c.get(&oid('1')).unwrap().as_str(), oid('a').as_str());
    assert!(!c.contains(&oid('2')));
    // Taken out: a second take gives an empty cache.
    assert!(!caches.take("refs/heads/master--sub").contains(&oid('1')));
    let d = caches.take("refs/heads/dev--sub");
    assert_eq!(d.get(&oid('2')).unwrap().as_str(), oid('b').as_str());
    // A put replaces what was there.
    let mut e = ViewCache::new();
    e.insert(oid('3'), oid('c'));
    caches.put("k".to_string(), ViewCache::new());
    caches.put("k".to_string(), e);
    assert!(caches.take("k").contains(&oid('3')));
}

#[test]
fn answered_walk_answers_again_at_once() {
    let (mut w, _) = ViewWalk::start(ViewCache::new(), oid('1'));
    w.step(ViewWalkEvent::Commit { id: oid('1'), parents: vec![] });
    w.step(ViewWalkEvent::Applied(Some(oid('7'))));
    w.step(ViewWalkEvent::Rewritten(oid('a')));
    let first = match w.step(ViewWalkEvent::WalkEnded) {
        ViewWalkAction::Finish(Some(x)) => x,
        _ => panic!("expected the rewritten tip"),
    };
    let (again, a) = ViewWalk::start(w.into_cache(), oid('1'));
    assert_eq!(again.stage(), WalkStage::Done);
    match a {
        ViewWalkAction::Finish(Some(x)) => assert_eq!(x.as_str(), first.as_str()),
        _ => panic!("expected the same answer at once"),
    }
    let c = again.into_cache();
    assert_eq!(c.get(&oid('1')).unwrap().as_str(), oid('a').as_str());
}

#[test]
fn dot_branch_view_leaves_caches_alone() {
    let mut caches = ViewCaches::new();
    let mut c = ViewCache::new();
    c.insert(oid('1'), oid('a'));
    caches.put("master--.".to_string(), c);
    assert!(BranchViewRun::begin(&mut caches, "master", ".").is_none());
    assert!(caches.take("master--.").contains(&oid('1')));
}

#[test]
fn branch_view_run_keeps_and_extends_the_cache() {
    let mut caches = ViewCaches::new();
    let mut old = ViewCache::new();
    old.insert(oid('1'), oid('a'));
    caches.put("dev--sub".to_string(), old);
    let mut other = ViewCache::new();
    other.insert(oid('5'), oid('e'));
    caches.put("dev--other".to_string(), other);

    let (mut run, a) = BranchViewRun::begin(&mut caches, "dev", "sub").unwrap();
    match a {
        BranchAction::FindReference(n) => assert_eq!(n, "refs/heads/dev"),
        _ => panic!("expected the branch to be looked up"),
    }
    // Taken out while the run holds it.
    assert!(!caches.take("dev--sub").contains(&oid('1')));
    assert_eq!(run.stage(), BranchStage::AwaitReference);
    // The branch points at 2, whose parent 1 is cached.
    match run.step(BranchEvent::Reference(Some(oid('2')))) {
        BranchAction::Walk(ViewWalkAction::NextCommit) => {}
        _ => panic!("expected the walk to ask for a commit"),
    }
    run.step(BranchEvent::Walk(ViewWalkEvent::Commit { id: oid('1'), parents: vec![] }));
    match run.step(BranchEvent::Walk(ViewWalkEvent::Commit { id: oid('2'), parents: vec![oid('1')] })) {
        BranchAction::Walk(ViewWalkAction::ApplyView { commit }) => {
            assert_eq!(commit.as_str(), oid('2').as_str())
        }
        _ => panic!("expected the view to be applied"),
    }
    run.step(BranchEvent::Walk(ViewWalkEvent::Applied(Some(oid('e')))));
    run.step(BranchEvent::Walk(ViewWalkEvent::ParentTreeIs(oid('d'))));
    run.step(BranchEvent::Walk(ViewWalkEvent::Rewritten(oid('b'))));
    match run.step(BranchEvent::Walk(ViewWalkEvent::WalkEnded)) {
        BranchAction::SetReference { name, commit } => {
            assert!(name.starts_with("refs/namespaces/"));
            assert!(name.ends_with("/refs/heads/dev"));
            assert_eq!(commit.as_str(), oid('b').as_str());
        }
        _ => panic!("expected the view's reference to be set"),
    }
    assert!(matches!(run.step(BranchEvent::ReferenceSet), BranchAction::Done));
    assert_eq!(run.stage(), BranchStage::Done);
    run.finish(&mut caches);

    let c = caches.take("dev--sub");
    assert_eq!(c.get(&oid('1')).unwrap().as_str(), oid('a').as_str());
    assert_eq!(c.get(&oid('2')).unwrap().as_str(), oid('b').as_str());
    assert_eq!(caches.take("dev--other").get(&oid('5')).unwrap().as_str(), oid('e').as_str());
}

#[test]
fn branch_view_run_for_master_sets_head_too() {
    let mut caches = ViewCaches::new();
    let (mut run, _) = BranchViewRun::begin(&mut caches, "master", "sub").unwrap();
    // The branch is missing: move on to the second reference.
    match run.step(BranchEvent::Reference(None)) {
        BranchAction::FindReference(n) => assert_eq!(n, "refs/heads/master"),
        _ => panic!("expected master to be looked up for HEAD"),
    }
    run.step(BranchEvent::Reference(Some(oid('1'))));
    run.step(BranchEvent::Walk(ViewWalkEvent::Commit { id: oid('1'), parents: vec![] }));
    run.step(BranchEvent::Walk(ViewWalkEvent::Applied(Some(oid('7')))));
    run.step(BranchEvent::Walk(ViewWalkEvent::Rewritten(oid('a'))));
    match run.step(BranchEvent::Walk(ViewWalkEvent::WalkEnded)) {
        BranchAction::SetReference { name, .. } => assert!(name.ends_with("/HEAD")),
        _ => panic!("expected HEAD to be set"),
    }
    assert!(matches!(run.step(BranchEvent::ReferenceSet), BranchAction::Done));
    run.finish(&mut caches);
    // The cache exists under the key even for a fresh branch.
    assert!(caches.take("master--sub").contains(&oid('1')));
}

#[test]
fn hidden_tip_sets_no_reference() {
    let mut caches = ViewCaches::new();
    let (mut run, _) = BranchViewRun::begin(&mut caches, "dev", "sub").unwrap();
    run.step(BranchEvent::Reference(Some(oid('1'))));
    run.step(BranchEvent::Walk(ViewWalkEvent::Commit { id: oid('1'), parents: vec![] }));
    run.step(BranchEvent::Walk(ViewWalkEvent::Applied(None)));
    assert!(matches!(run.step(BranchEvent::Walk(ViewWalkEvent::WalkEnded)), BranchAction::Done));
}

#[test]
fn pair_map_keeps_one_value_per_key() {
    let mut m: PairMap<String, String> = PairMap::new();
    m.insert("a".to_string(), "1".to_string());
    m.insert("b".to_string(), "2".to_string());
    m.insert("a".to_string(), "3".to_string());
    assert_eq!(m.get(&"a".to_string()), Some(&"3".to_string()));
    assert!(m.contains(&"b".to_string()));
    assert_eq!(m.remove(&"b".to_string()), Some("2".to_string()));
    assert!(!m.contains(&"b".to_string()));
    assert_eq!(m.remove(&"b".to_string()), None);
    assert_eq!(m.get(&"a".to_string()), Some(&"3".to_string()));
}
