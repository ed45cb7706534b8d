//! Views of a repository: a view maps each commit of a branch to a commit
//! whose tree the view's filter has rewritten, keeping the history's
//! shape. The decisions of that rewrite are taken here; the repository
//! work is done by the caller.

use vstd::prelude::*;

use crypto::digest::Digest;

use crate::assoc::PairMap;
use crate::oid::{is_oid_text, Oid};
use crate::text::{concat2, concat3, copy_str};

verus! {

// ---------------------------------------------------------------------------
// The cache of rewritten commits
// ---------------------------------------------------------------------------

/// For each commit already rewritten, the commit it was rewritten to.
pub struct ViewCache {
    map: PairMap<Oid, Oid>,
}

impl View for ViewCache {
    type V = Map<Seq<char>, Seq<char>>;

    closed spec fn view(&self) -> Map<Seq<char>, Seq<char>> {
        self.map@
    }
}

impl ViewCache {
    /// The empty cache.
    pub fn new() -> (c: ViewCache)
        ensures
            c@ == Map::<Seq<char>, Seq<char>>::empty(),
    {
        ViewCache { map: PairMap::new() }
    }

    /// Whether `key` was rewritten.
    pub fn contains(&self, key: &Oid) -> (b: bool)
        ensures
            b == self@.contains_key(key@),
    {
        self.map.contains(key)
    }

    /// What `key` was rewritten to.
    pub fn get(&self, key: &Oid) -> (r: Option<Oid>)
        ensures
            match r {
                Some(v) => self@.contains_key(key@) && v@ == self@[key@],
                None => !self@.contains_key(key@),
            },
    {
        match self.map.get(key) {
            Some(v) => Some(v.clone()),
            None => None,
        }
    }

    /// Records that `key` was rewritten to `value`.
    pub fn insert(&mut self, key: Oid, value: Oid)
        ensures
            final(self)@ == old(self)@.insert(key@, value@),
    {
        self.map.insert(key, value);
    }

    /// The rewritten commits of those `parents` that were rewritten, in
    /// their order.
    pub fn mapped_parents(&self, parents: &Vec<Oid>) -> (out: Vec<Oid>)
        ensures
            out@.map_values(|o: Oid| o@) == mapped_ids(self@, parents@.map_values(|o: Oid| o@)),
    {
        let ghost pv = parents@.map_values(|o: Oid| o@);
        let mut out: Vec<Oid> = Vec::new();
        let mut i: usize = 0;
        while i < parents.len()
            invariant
                i <= parents@.len(),
                pv == parents@.map_values(|o: Oid| o@),
                out@.map_values(|o: Oid| o@) == mapped_ids(self@, pv.take(i as int)),
            decreases parents.len() - i,
        {
            assert(pv.take(i + 1).drop_last() =~= pv.take(i as int));
            assert(pv.take(i + 1).last() == parents@[i as int]@);
            match self.get(&parents[i]) {
                Some(m) => {
                    let ghost before = out@.map_values(|o: Oid| o@);
                    out.push(m);
                    assert(out@.map_values(|o: Oid| o@) =~= before.push(self@[parents@[i as int]@]));
                },
                None => {},
            }
            i += 1;
        }
        assert(pv.take(parents@.len() as int) =~= pv);
        out
    }
}

/// The images of those `ids` that the map holds, in their order.
pub open spec fn mapped_ids(m: Map<Seq<char>, Seq<char>>, ids: Seq<Seq<char>>) -> Seq<Seq<char>>
    decreases ids.len(),
{
    if ids.len() == 0 {
        Seq::<Seq<char>>::empty()
    } else {
        let rest = mapped_ids(m, ids.drop_last());
        if m.contains_key(ids.last()) {
            rest.push(m[ids.last()])
        } else {
            rest
        }
    }
}

// ---------------------------------------------------------------------------
// The caches of every branch and view
// ---------------------------------------------------------------------------

/// The caches of rewritten commits, one for each branch shown through each
/// view, under the key that [`apply_view_to_branch`] plans.
pub struct ViewCaches {
    map: PairMap<String, ViewCache>,
}

impl View for ViewCaches {
    type V = Map<Seq<char>, Map<Seq<char>, Seq<char>>>;

    closed spec fn view(&self) -> Map<Seq<char>, Map<Seq<char>, Seq<char>>> {
        self.map@
    }
}

impl ViewCaches {
    /// No caches yet.
    pub fn new() -> (c: ViewCaches)
        ensures
            c@ == Map::<Seq<char>, Map<Seq<char>, Seq<char>>>::empty(),
    {
        ViewCaches { map: PairMap::new() }
    }

    /// Takes out the cache under `key`; an empty cache where there is none.
    pub fn take(&mut self, key: &str) -> (c: ViewCache)
        ensures
            c@ == (if old(self)@.contains_key(key@) {
                old(self)@[key@]
            } else {
                Map::<Seq<char>, Seq<char>>::empty()
            }),
            final(self)@ == old(self)@.remove(key@),
    {
        match self.map.remove(&copy_str(key)) {
            Some(c) => c,
            None => ViewCache::new(),
        }
    }

    /// Puts `cache` under `key`, in place of any cache there.
    pub fn put(&mut self, key: String, cache: ViewCache)
        ensures
            final(self)@ == old(self)@.insert(key@, cache@),
    {
        self.map.insert(key, cache);
    }
}

/// A read of the cache gives back what the last write for that commit
/// wrote, and a write leaves every other commit as it was: `after` is
/// `before` once `insert(key, value)` has run.
pub proof fn lemma_cache_read_after_write(
    before: ViewCache,
    after: ViewCache,
    key: Oid,
    value: Oid,
    other: Oid,
)
    requires
        after@ == before@.insert(key@, value@),
        other@ != key@,
    ensures
        after@.contains_key(key@),
        after@[key@] == value@,
        after@.contains_key(other@) == before@.contains_key(other@),
        before@.contains_key(other@) ==> after@[other@] == before@[other@],
{
}

// ---------------------------------------------------------------------------
// The view of a branch
// ---------------------------------------------------------------------------

/// The hexadecimal SHA-1 digest of the UTF-8 text, as `rust-crypto`'s
/// `Sha1` writes it.
pub uninterp spec fn sha1_text(text: Seq<char>) -> Seq<char>;

/// `crypto::sha1::Sha1`: `input_str`, then `result_str`.
///
/// The digest itself is only named; the contract states that `result_str`
/// writes the 20 bytes of a SHA-1 digest as 40 lowercase hexadecimal
/// digits.
#[verifier::external_body]
fn sha1_hex(text: &str) -> (r: String)
    ensures
        r@ == sha1_text(text@),
        is_oid_text(r@),
{
    let mut hasher = crypto::sha1::Sha1::new();
    hasher.input_str(text);
    hasher.result_str()
}

/// The namespace that holds the view `viewstr` of a repository.
pub open spec fn view_namespace(viewstr: Seq<char>) -> Seq<char> {
    sha1_text(viewstr)
}

/// What showing `branchname` through the view `viewstr` takes: the key of
/// the cache to use, and the references to rewrite, each with the
/// reference that receives the result.
pub struct BranchViewPlan {
    pub cache_key: String,
    pub transforms: Vec<(String, String)>,
}

/// The branch `master` also gives the view's `HEAD`.
pub open spec fn plans_branch_view(branchname: Seq<char>, viewstr: Seq<char>, p: BranchViewPlan) -> bool {
    let ns = view_namespace(viewstr);
    &&& p.cache_key@ == branchname + "--"@ + viewstr
    &&& p.transforms@.len() == (if branchname == "master"@ {
        2int
    } else {
        1int
    })
    &&& p.transforms@[0].0@ == "refs/heads/"@ + branchname
    &&& p.transforms@[0].1@ == "refs/namespaces/"@ + ns + "/refs/heads/"@ + branchname
    &&& branchname == "master"@ ==> {
        &&& p.transforms@[1].0@ == "refs/heads/master"@
        &&& p.transforms@[1].1@ == "refs/namespaces/"@ + ns + "/HEAD"@
    }
}

/// Plans the view `viewstr` of `branchname`; the view `.` shows the
/// repository as it is and needs nothing.
pub fn apply_view_to_branch(branchname: &str, viewstr: &str) -> (r: Option<BranchViewPlan>)
    ensures
        match r {
            None => viewstr@ == "."@,
            Some(p) => viewstr@ != "."@ && plans_branch_view(branchname@, viewstr@, p),
        },
{
    if viewstr.to_owned() == copy_str(".") {
        return None;
    }
    let cache_key = concat3(branchname, "--", viewstr);
    let ns = sha1_hex(viewstr);
    let mut to_refname = concat3("refs/namespaces/", ns.as_str(), "/refs/heads/");
    to_refname.append(branchname);
    let from_refname = concat2("refs/heads/", branchname);
    let mut transforms: Vec<(String, String)> = Vec::new();
    transforms.push((from_refname, to_refname));
    if branchname.to_owned() == copy_str("master") {
        let to_head = concat3("refs/namespaces/", ns.as_str(), "/HEAD");
        transforms.push((copy_str("refs/heads/master"), to_head));
    }
    Some(BranchViewPlan { cache_key, transforms })
}

// ---------------------------------------------------------------------------
// Showing a history through a view
// ---------------------------------------------------------------------------

/// The views of a sequence of ids.
pub open spec fn oid_views(v: Seq<Oid>) -> Seq<Seq<char>> {
    v.map_values(|o: Oid| o@)
}

/// What a walk through a history waits for.
#[derive(PartialEq, Eq, Structural, Clone, Copy, Debug)]
pub enum WalkStage {
    AwaitCommit,
    AwaitApplied,
    AwaitParentTree,
    AwaitRewrite,
    Done,
}

/// What showing a history through a view asks to be done next.
pub enum ViewWalkAction {
    /// Report the next commit of the walk, oldest first, parents before
    /// children.
    NextCommit,
    /// Apply the view to the tree of `commit`.
    ApplyView { commit: Oid },
    /// Report the tree of the rewritten commit `parent`.
    ParentTree { parent: Oid },
    /// Write a commit like `commit` but with `tree` and `parents`.
    Rewrite { commit: Oid, parents: Vec<Oid>, tree: Oid },
    /// The walk is over: the commit that the tip was rewritten to, if any.
    Finish(Option<Oid>),
}

/// What happened to the last thing asked of the walk.
pub enum ViewWalkEvent {
    /// The next commit and its parents.
    Commit { id: Oid, parents: Vec<Oid> },
    /// The view's tree, or nothing when the view hides the commit.
    Applied(Option<Oid>),
    /// The tree of the parent asked for.
    ParentTreeIs(Oid),
    /// The commit written.
    Rewritten(Oid),
    /// No commit is left.
    WalkEnded,
}

/// Showing the history of `newrev` through a view, reusing and extending a
/// cache of rewritten commits.
pub struct ViewWalk {
    stage: WalkStage,
    cache: ViewCache,
    newrev: Oid,
    commit: Oid,
    mapped: Vec<Oid>,
    tree: Oid,
}

/// The view of a [`ViewWalk`].
pub struct ViewWalkView {
    pub stage: WalkStage,
    pub cache: Map<Seq<char>, Seq<char>>,
    pub newrev: Seq<char>,
    pub commit: Seq<char>,
    pub mapped: Seq<Seq<char>>,
    pub tree: Seq<char>,
}

impl View for ViewWalk {
    type V = ViewWalkView;

    closed spec fn view(&self) -> ViewWalkView {
        ViewWalkView {
            stage: self.stage,
            cache: self.cache@,
            newrev: self.newrev@,
            commit: self.commit@,
            mapped: oid_views(self.mapped@),
            tree: self.tree@,
        }
    }
}

/// The answer for the tip: what the cache holds for it.
pub open spec fn cached_answer(cache: Map<Seq<char>, Seq<char>>, id: Seq<char>, r: Option<Oid>) -> bool {
    match r {
        Some(x) => cache.contains_key(id) && x@ == cache[id],
        None => !cache.contains_key(id),
    }
}

/// The event reports what the walk waits for.
pub open spec fn view_event_fits(stage: WalkStage, e: ViewWalkEvent) -> bool {
    match stage {
        WalkStage::AwaitCommit => e is Commit || e is WalkEnded,
        WalkStage::AwaitApplied => e is Applied,
        WalkStage::AwaitParentTree => e is ParentTreeIs,
        WalkStage::AwaitRewrite => e is Rewritten,
        WalkStage::Done => false,
    }
}

/// A rewrite of the current commit onto its rewritten parents.
pub open spec fn rewrites_current(s: ViewWalkView, a: ViewWalkAction) -> bool {
    a matches ViewWalkAction::Rewrite { commit, parents, tree } && commit@ == s.commit
        && oid_views(parents@) == s.mapped && tree@ == s.tree
}

/// One step of the walk: from view `s`, on event `e`, to view `t`, asking
/// for `a`.
pub open spec fn view_walk_steps_to(
    s: ViewWalkView,
    e: ViewWalkEvent,
    t: ViewWalkView,
    a: ViewWalkAction,
) -> bool {
    match e {
        ViewWalkEvent::Commit { id, parents } => if s.cache.contains_key(id@) {
            t == s && a is NextCommit
        } else {
            &&& t == ViewWalkView {
                stage: WalkStage::AwaitApplied,
                commit: id@,
                mapped: mapped_ids(s.cache, oid_views(parents@)),
                ..s
            }
            &&& a matches ViewWalkAction::ApplyView { commit } && commit@ == id@
        },
        ViewWalkEvent::WalkEnded => {
            &&& t == ViewWalkView { stage: WalkStage::Done, ..s }
            &&& a matches ViewWalkAction::Finish(r) && cached_answer(s.cache, s.newrev, r)
        },
        ViewWalkEvent::Applied(r) => match r {
            None => t == ViewWalkView { stage: WalkStage::AwaitCommit, ..s } && a is NextCommit,
            Some(tree) => if s.mapped.len() == 1 {
                &&& t == ViewWalkView { stage: WalkStage::AwaitParentTree, tree: tree@, ..s }
                &&& a matches ViewWalkAction::ParentTree { parent } && parent@ == s.mapped[0]
            } else {
                &&& t == ViewWalkView { stage: WalkStage::AwaitRewrite, tree: tree@, ..s }
                &&& rewrites_current(t, a)
            },
        },
        ViewWalkEvent::ParentTreeIs(pt) => if pt@ == s.tree {
            &&& t == ViewWalkView {
                stage: WalkStage::AwaitCommit,
                cache: s.cache.insert(s.commit, s.mapped[0]),
                ..s
            }
            &&& a is NextCommit
        } else {
            &&& t == ViewWalkView { stage: WalkStage::AwaitRewrite, ..s }
            &&& rewrites_current(t, a)
        },
        ViewWalkEvent::Rewritten(o) => {
            &&& t == ViewWalkView {
                stage: WalkStage::AwaitCommit,
                cache: s.cache.insert(s.commit, o@),
                ..s
            }
            &&& a is NextCommit
        },
    }
}

/// A walk's own consistency: the commit being rewritten is not in the
/// cache yet, and a single rewritten parent is asked for by position.
pub open spec fn walk_wf(v: ViewWalkView) -> bool {
    &&& (v.stage == WalkStage::AwaitApplied || v.stage == WalkStage::AwaitParentTree
        || v.stage == WalkStage::AwaitRewrite) ==> !v.cache.contains_key(v.commit)
    &&& v.stage == WalkStage::AwaitParentTree ==> v.mapped.len() == 1
}

/// How a walk starts: on the cache it is given, for the tip `newrev`; when
/// the cache already holds the tip, that is the answer at once.
pub open spec fn view_walk_starts(
    cache: Map<Seq<char>, Seq<char>>,
    newrev: Seq<char>,
    w: ViewWalkView,
    a: ViewWalkAction,
) -> bool {
    &&& walk_wf(w)
    &&& w.cache == cache
    &&& w.newrev == newrev
    &&& if cache.contains_key(newrev) {
        w.stage == WalkStage::Done && (a matches ViewWalkAction::Finish(x) && cached_answer(
            cache,
            newrev,
            x,
        ))
    } else {
        w.stage == WalkStage::AwaitCommit && a is NextCommit
    }
}

/// `states` is a run of a walk: each state goes to the next on the event
/// of the same position, which is one the walk waits for, asking for the
/// action of the same position.
pub open spec fn is_view_walk_run(
    states: Seq<ViewWalkView>,
    events: Seq<ViewWalkEvent>,
    actions: Seq<ViewWalkAction>,
) -> bool {
    &&& states.len() == events.len() + 1
    &&& actions.len() == events.len()
    &&& forall|i: int|
        #![trigger events[i]]
        0 <= i < events.len() ==> view_event_fits(states[i].stage, events[i])
            && view_walk_steps_to(states[i], events[i], states[i + 1], actions[i])
}

/// One step keeps a consistent walk consistent, and only adds to its cache:
/// every commit rewritten before keeps what it was rewritten to.
pub proof fn lemma_walk_step_only_adds(
    s: ViewWalkView,
    e: ViewWalkEvent,
    t: ViewWalkView,
    a: ViewWalkAction,
)
    requires
        walk_wf(s),
        view_event_fits(s.stage, e),
        view_walk_steps_to(s, e, t, a),
    ensures
        walk_wf(t),
        s.cache.submap_of(t.cache),
        t.newrev == s.newrev,
{
}

/// Over a whole run of a walk, from the cache it started with to the cache
/// it ends with, commits are only added to the cache: an entry, once
/// there, stays with the same rewritten commit in every later state.
pub proof fn lemma_walk_run_only_adds(
    states: Seq<ViewWalkView>,
    events: Seq<ViewWalkEvent>,
    actions: Seq<ViewWalkAction>,
)
    requires
        walk_wf(states[0]),
        is_view_walk_run(states, events, actions),
    ensures
        forall|i: int| 0 <= i < states.len() ==> walk_wf(#[trigger] states[i]),
        forall|i: int| 0 <= i < states.len() ==> (#[trigger] states[i]).newrev == states[0].newrev,
        forall|i: int, j: int|
            0 <= i <= j < states.len() ==> (#[trigger] states[i]).cache.submap_of(
                (#[trigger] states[j]).cache,
            ),
    decreases events.len(),
{
    let n = events.len() as int;
    if n == 0 {
        assert(states[0].cache.submap_of(states[0].cache));
    } else {
        let ps = states.drop_last();
        let pe = events.drop_last();
        let pa = actions.drop_last();
        assert forall|i: int| 0 <= i < pe.len() implies view_event_fits(ps[i].stage, pe[i])
            && view_walk_steps_to(ps[i], pe[i], ps[i + 1], pa[i]) by {
            assert(events[i] == pe[i]);
        }
        lemma_walk_run_only_adds(ps, pe, pa);
        assert(events[n - 1] == events[n - 1]);
        lemma_walk_step_only_adds(states[n - 1], events[n - 1], states[n], actions[n - 1]);
        assert forall|i: int| 0 <= i < states.len() implies walk_wf(#[trigger] states[i])
            && states[i].newrev == states[0].newrev by {
            if i < n {
                assert(states[i] == ps[i]);
            }
            assert(states[0] == ps[0]);
        }
        assert forall|i: int, j: int| 0 <= i <= j < states.len() implies (
        #[trigger] states[i]).cache.submap_of((#[trigger] states[j]).cache) by {
            if j < n {
                assert(states[i] == ps[i] && states[j] == ps[j]);
            } else if i == n {
                assert(states[i].cache.submap_of(states[j].cache));
            } else {
                assert(states[i] == ps[i] && states[n - 1] == ps[n - 1]);
                assert(ps[i].cache.submap_of(ps[n - 1].cache));
                let (a, b, c) = (states[i].cache, states[n - 1].cache, states[j].cache);
                assert(a.submap_of(b));
                assert(b.submap_of(c));
                assert forall|k: Seq<char>| #[trigger] a.contains_key(k) implies c.contains_key(k)
                    && a[k] == c[k] by {
                    assert(b.dom().contains(k));
                    assert(c.dom().contains(k));
                }
            }
        }
    }
}

/// The cache agrees with a view: each commit in it was rewritten to a
/// commit whose tree is what the view gives for the commit's tree.
/// `applied(c)` is the view's tree for commit `c` (nothing when the view
/// hides it), and `tree_of(c)` is the tree of commit `c`.
pub open spec fn cache_agrees(
    cache: Map<Seq<char>, Seq<char>>,
    applied: spec_fn(Seq<char>) -> Option<Seq<char>>,
    tree_of: spec_fn(Seq<char>) -> Seq<char>,
) -> bool {
    forall|k: Seq<char>| #[trigger]
        cache.contains_key(k) ==> applied(k) == Some(tree_of(cache[k]))
}

/// The walk agrees with a view: its cache does, and the tree it holds for
/// the commit being rewritten is the view's tree of that commit.
pub open spec fn walk_agrees(
    s: ViewWalkView,
    applied: spec_fn(Seq<char>) -> Option<Seq<char>>,
    tree_of: spec_fn(Seq<char>) -> Seq<char>,
) -> bool {
    &&& cache_agrees(s.cache, applied, tree_of)
    &&& (s.stage == WalkStage::AwaitParentTree || s.stage == WalkStage::AwaitRewrite) ==> applied(
        s.commit,
    ) == Some(s.tree)
}

/// The event reports what the view and the repository give: the view's
/// tree of the commit asked for, the tree of the parent asked for, and a
/// written commit with the tree asked for.
pub open spec fn event_agrees(
    s: ViewWalkView,
    e: ViewWalkEvent,
    applied: spec_fn(Seq<char>) -> Option<Seq<char>>,
    tree_of: spec_fn(Seq<char>) -> Seq<char>,
) -> bool {
    match e {
        ViewWalkEvent::Applied(r) => match r {
            Some(t) => applied(s.commit) == Some(t@),
            None => applied(s.commit) is None,
        },
        ViewWalkEvent::ParentTreeIs(pt) => pt@ == tree_of(s.mapped[0]),
        ViewWalkEvent::Rewritten(o) => tree_of(o@) == s.tree,
        _ => true,
    }
}

/// A walk started on a cache that agrees with a view agrees with it, and
/// an answer it gives at once is a commit with the view's tree of the tip.
pub proof fn lemma_walk_start_agrees(
    cache: Map<Seq<char>, Seq<char>>,
    newrev: Seq<char>,
    w: ViewWalkView,
    a: ViewWalkAction,
    applied: spec_fn(Seq<char>) -> Option<Seq<char>>,
    tree_of: spec_fn(Seq<char>) -> Seq<char>,
)
    requires
        cache_agrees(cache, applied, tree_of),
        view_walk_starts(cache, newrev, w, a),
    ensures
        walk_agrees(w, applied, tree_of),
        a matches ViewWalkAction::Finish(r) ==> (r matches Some(x) ==> applied(newrev) == Some(
            tree_of(x@),
        )),
{
}

/// On events that agree with a view, a step keeps the walk in agreement
/// with it: every commit it adds to the cache is rewritten to a commit
/// with the view's tree.
pub proof fn lemma_walk_step_agrees(
    s: ViewWalkView,
    e: ViewWalkEvent,
    t: ViewWalkView,
    a: ViewWalkAction,
    applied: spec_fn(Seq<char>) -> Option<Seq<char>>,
    tree_of: spec_fn(Seq<char>) -> Seq<char>,
)
    requires
        walk_wf(s),
        view_event_fits(s.stage, e),
        view_walk_steps_to(s, e, t, a),
        walk_agrees(s, applied, tree_of),
        event_agrees(s, e, applied, tree_of),
    ensures
        walk_agrees(t, applied, tree_of),
{
    match e {
        ViewWalkEvent::ParentTreeIs(pt) => {
            if pt@ == s.tree {
                assert forall|k: Seq<char>| #[trigger] t.cache.contains_key(k) implies applied(k)
                    == Some(tree_of(t.cache[k])) by {
                    if k != s.commit {
                        assert(s.cache.contains_key(k));
                    }
                }
            }
        },
        ViewWalkEvent::Rewritten(o) => {
            assert forall|k: Seq<char>| #[trigger] t.cache.contains_key(k) implies applied(k)
                == Some(tree_of(t.cache[k])) by {
                if k != s.commit {
                    assert(s.cache.contains_key(k));
                }
            }
        },
        _ => {},
    }
}

/// Over a run whose events agree with a view, starting from a cache that
/// agrees with it, every cache of the run agrees with the view, and an
/// answer for the tip is a commit whose tree is the view's tree of the
/// tip.
pub proof fn lemma_walk_run_agrees(
    states: Seq<ViewWalkView>,
    events: Seq<ViewWalkEvent>,
    actions: Seq<ViewWalkAction>,
    applied: spec_fn(Seq<char>) -> Option<Seq<char>>,
    tree_of: spec_fn(Seq<char>) -> Seq<char>,
)
    requires
        walk_wf(states[0]),
        walk_agrees(states[0], applied, tree_of),
        is_view_walk_run(states, events, actions),
        forall|i: int|
            0 <= i < events.len() ==> event_agrees(states[i], #[trigger] events[i], applied, tree_of),
    ensures
        forall|i: int| 0 <= i < states.len() ==> walk_agrees(#[trigger] states[i], applied, tree_of),
        forall|i: int|
            0 <= i < actions.len() ==> (#[trigger] actions[i] matches ViewWalkAction::Finish(r)
                ==> (r matches Some(x) ==> applied(states[0].newrev) == Some(tree_of(x@)))),
    decreases events.len(),
{
    lemma_walk_run_only_adds(states, events, actions);
    let n = events.len() as int;
    if n > 0 {
        let ps = states.drop_last();
        let pe = events.drop_last();
        let pa = actions.drop_last();
        assert forall|i: int| 0 <= i < pe.len() implies view_event_fits(ps[i].stage, pe[i])
            && view_walk_steps_to(ps[i], pe[i], ps[i + 1], pa[i]) by {
            assert(events[i] == pe[i]);
        }
        assert forall|i: int| 0 <= i < pe.len() implies event_agrees(
            ps[i],
            #[trigger] pe[i],
            applied,
            tree_of,
        ) by {
            assert(events[i] == pe[i]);
        }
        lemma_walk_run_agrees(ps, pe, pa, applied, tree_of);
        assert(events[n - 1] == events[n - 1]);
        assert(states[n - 1] == ps[n - 1]);
        assert(walk_wf(states[n - 1]));
        lemma_walk_step_agrees(
            states[n - 1],
            events[n - 1],
            states[n],
            actions[n - 1],
            applied,
            tree_of,
        );
        assert forall|i: int| 0 <= i < states.len() implies walk_agrees(
            #[trigger] states[i],
            applied,
            tree_of,
        ) by {
            if i < n {
                assert(states[i] == ps[i]);
            }
        }
        assert forall|i: int| 0 <= i < actions.len() implies (#[trigger] actions[i] matches ViewWalkAction::Finish(
            r,
        ) ==> (r matches Some(x) ==> applied(states[0].newrev) == Some(tree_of(x@)))) by {
            if i < n - 1 {
                assert(actions[i] == pa[i]);
                assert(states[0] == ps[0]);
            } else {
                assert(states[i].newrev == states[0].newrev);
            }
        }
    }
}

/// A walk that ended by answering with a commit for its tip left that
/// answer in its cache, so showing the same tip again through the cache it
/// left answers with the same commit at once and changes nothing in the
/// cache; and the cache it left holds every entry of the cache it started
/// with.
pub proof fn lemma_answered_walk_repeats(
    states: Seq<ViewWalkView>,
    events: Seq<ViewWalkEvent>,
    actions: Seq<ViewWalkAction>,
    x: Oid,
    again: ViewWalkView,
    again_action: ViewWalkAction,
)
    requires
        walk_wf(states[0]),
        is_view_walk_run(states, events, actions),
        events.len() > 0,
        events.last() is WalkEnded,
        actions.last() matches ViewWalkAction::Finish(r) && r == Some(x),
        view_walk_starts(states.last().cache, states[0].newrev, again, again_action),
    ensures
        states[0].cache.submap_of(again.cache),
        again.cache == states.last().cache,
        again.stage == WalkStage::Done,
        again_action matches ViewWalkAction::Finish(r) && (r matches Some(y) && y@ == x@),
{
    lemma_walk_run_only_adds(states, events, actions);
    let n = events.len() as int;
    assert(events[n - 1] == events.last());
    assert(states[n] == states.last());
    assert(states[n - 1].newrev == states[0].newrev);
}

impl ViewWalk {
    /// The walk's own consistency (see [`walk_wf`]).
    pub open spec fn wf(&self) -> bool {
        walk_wf(self@)
    }

    /// Starts showing the history of `newrev` through a view; when the
    /// cache already holds `newrev`, that is the answer.
    pub fn start(cache: ViewCache, newrev: Oid) -> (r: (ViewWalk, ViewWalkAction))
        ensures
            view_walk_starts(cache@, newrev@, r.0@, r.1),
    {
        let found = cache.get(&newrev);
        let commit = Oid::zero();
        let tree = Oid::zero();
        match found {
            Some(x) => {
                let w = ViewWalk {
                    stage: WalkStage::Done,
                    cache,
                    newrev,
                    commit,
                    mapped: Vec::new(),
                    tree,
                };
                (w, ViewWalkAction::Finish(Some(x)))
            },
            None => {
                let w = ViewWalk {
                    stage: WalkStage::AwaitCommit,
                    cache,
                    newrev,
                    commit,
                    mapped: Vec::new(),
                    tree,
                };
                (w, ViewWalkAction::NextCommit)
            },
        }
    }

    /// What the walk waits for.
    pub fn stage(&self) -> (st: WalkStage)
        ensures
            st == self@.stage,
    {
        self.stage
    }

    /// Takes in what happened to the last thing asked, and asks for the
    /// next. Commits are only ever added to the cache, never changed.
    pub fn step(&mut self, event: ViewWalkEvent) -> (a: ViewWalkAction)
        requires
            old(self).wf(),
            view_event_fits(old(self)@.stage, event),
        ensures
            view_walk_steps_to(old(self)@, event, final(self)@, a),
            old(self)@.cache.submap_of(final(self)@.cache),
            final(self).wf(),
    {
        match event {
            ViewWalkEvent::Commit { id, parents } => {
                if self.cache.contains(&id) {
                    return ViewWalkAction::NextCommit;
                }
                self.mapped = self.cache.mapped_parents(&parents);
                self.commit = id;
                self.stage = WalkStage::AwaitApplied;
                ViewWalkAction::ApplyView { commit: self.commit.clone() }
            },
            ViewWalkEvent::WalkEnded => {
                self.stage = WalkStage::Done;
                ViewWalkAction::Finish(self.cache.get(&self.newrev))
            },
            ViewWalkEvent::Applied(r) => match r {
                None => {
                    self.stage = WalkStage::AwaitCommit;
                    ViewWalkAction::NextCommit
                },
                Some(tree) => {
                    self.tree = tree;
                    if self.mapped.len() == 1 {
                        self.stage = WalkStage::AwaitParentTree;
                        ViewWalkAction::ParentTree { parent: self.mapped[0].clone() }
                    } else {
                        self.stage = WalkStage::AwaitRewrite;
                        self.rewrite_current()
                    }
                },
            },
            ViewWalkEvent::ParentTreeIs(pt) => {
                if pt.same_as(&self.tree) {
                    let key = self.commit.clone();
                    let value = self.mapped[0].clone();
                    self.cache.insert(key, value);
                    self.stage = WalkStage::AwaitCommit;
                    ViewWalkAction::NextCommit
                } else {
                    self.stage = WalkStage::AwaitRewrite;
                    self.rewrite_current()
                }
            },
            ViewWalkEvent::Rewritten(o) => {
                let key = self.commit.clone();
                self.cache.insert(key, o);
                self.stage = WalkStage::AwaitCommit;
                ViewWalkAction::NextCommit
            },
        }
    }

    /// Asks for the rewrite of the current commit.
    fn rewrite_current(&self) -> (a: ViewWalkAction)
        ensures
            rewrites_current(self@, a),
    {
        let mut parents: Vec<Oid> = Vec::new();
        let mut i: usize = 0;
        while i < self.mapped.len()
            invariant
                i <= self.mapped@.len(),
                oid_views(parents@) == oid_views(self.mapped@).take(i as int),
            decreases self.mapped.len() - i,
        {
            let ghost before = oid_views(parents@);
            parents.push(self.mapped[i].clone());
            assert(oid_views(parents@) =~= before.push(self.mapped@[i as int]@));
            assert(oid_views(self.mapped@).take(i + 1) =~= oid_views(self.mapped@).take(
                i as int,
            ).push(self.mapped@[i as int]@));
            i += 1;
        }
        assert(oid_views(self.mapped@).take(self.mapped@.len() as int) =~= oid_views(self.mapped@));
        ViewWalkAction::Rewrite { commit: self.commit.clone(), parents, tree: self.tree.clone() }
    }

    /// A walk that holds `cache` and waits for nothing.
    fn idle(cache: ViewCache) -> (w: ViewWalk)
        ensures
            walk_wf(w@),
            w@.stage == WalkStage::Done,
            w@.cache == cache@,
    {
        ViewWalk {
            stage: WalkStage::Done,
            cache,
            newrev: Oid::zero(),
            commit: Oid::zero(),
            mapped: Vec::new(),
            tree: Oid::zero(),
        }
    }

    /// The cache, with what the walk added.
    pub fn into_cache(self) -> (c: ViewCache)
        ensures
            c@ == self@.cache,
    {
        self.cache
    }
}

// ---------------------------------------------------------------------------
// Showing a branch through a view
// ---------------------------------------------------------------------------

/// The views of a sequence of reference-name pairs.
pub open spec fn ref_pairs(v: Seq<(String, String)>) -> Seq<(Seq<char>, Seq<char>)> {
    v.map_values(|p: (String, String)| (p.0@, p.1@))
}

/// The references that showing `branchname` through the view `viewstr`
/// rewrites, each with the reference that receives the result: the branch
/// into the view's namespace, and for `master` also the view's `HEAD`.
pub open spec fn planned_transforms(branchname: Seq<char>, viewstr: Seq<char>) -> Seq<
    (Seq<char>, Seq<char>),
> {
    let ns = view_namespace(viewstr);
    let first = (
        "refs/heads/"@ + branchname,
        "refs/namespaces/"@ + ns + "/refs/heads/"@ + branchname,
    );
    if branchname == "master"@ {
        seq![first, ("refs/heads/master"@, "refs/namespaces/"@ + ns + "/HEAD"@)]
    } else {
        seq![first]
    }
}

/// The cache kept under `key`; an empty one where there is none.
pub open spec fn cache_under(
    caches: Map<Seq<char>, Map<Seq<char>, Seq<char>>>,
    key: Seq<char>,
) -> Map<Seq<char>, Seq<char>> {
    if caches.contains_key(key) {
        caches[key]
    } else {
        Map::<Seq<char>, Seq<char>>::empty()
    }
}

/// What showing a branch through a view waits for.
#[derive(PartialEq, Eq, Structural, Clone, Copy, Debug)]
pub enum BranchStage {
    AwaitReference,
    Walking,
    AwaitSet,
    Done,
}

/// What showing a branch through a view asks to be done next.
pub enum BranchAction {
    /// Report the commit that the reference `name` points to, if it exists.
    FindReference(String),
    /// A step of showing the history of that commit through the view.
    Walk(ViewWalkAction),
    /// Point the reference `name` at `commit`, replacing what was there.
    SetReference { name: String, commit: Oid },
    /// Every reference is done; the cache goes back with `finish`.
    Done,
}

/// What happened to the last thing asked.
pub enum BranchEvent {
    /// The commit that the reference points to, or nothing when there is no
    /// such reference.
    Reference(Option<Oid>),
    /// What happened to the last step of the walk.
    Walk(ViewWalkEvent),
    /// The reference was set.
    ReferenceSet,
}

/// Showing a branch through a view: each planned reference is shown
/// through the view with the cache kept for the branch and the view, and
/// the result is written to the reference that receives it.
pub struct BranchViewRun {
    stage: BranchStage,
    key: String,
    transforms: Vec<(String, String)>,
    index: usize,
    walk: ViewWalk,
    origin: Ghost<Map<Seq<char>, Seq<char>>>,
}

/// The view of a [`BranchViewRun`]; `origin` is the cache it was started
/// with.
pub struct BranchViewRunView {
    pub stage: BranchStage,
    pub key: Seq<char>,
    pub transforms: Seq<(Seq<char>, Seq<char>)>,
    pub index: int,
    pub walk: ViewWalkView,
    pub origin: Map<Seq<char>, Seq<char>>,
}

impl View for BranchViewRun {
    type V = BranchViewRunView;

    closed spec fn view(&self) -> BranchViewRunView {
        BranchViewRunView {
            stage: self.stage,
            key: self.key@,
            transforms: ref_pairs(self.transforms@),
            index: self.index as int,
            walk: self.walk@,
            origin: self.origin@,
        }
    }
}

/// A run's own consistency: its walk is consistent, its cache holds every
/// entry it started with, and it works on a planned reference until done.
pub open spec fn branch_run_wf(v: BranchViewRunView) -> bool {
    &&& walk_wf(v.walk)
    &&& v.origin.submap_of(v.walk.cache)
    &&& 0 <= v.index <= v.transforms.len()
    &&& v.stage != BranchStage::Done ==> v.index < v.transforms.len()
}

/// The event reports what the run waits for.
pub open spec fn branch_event_fits(s: BranchViewRunView, e: BranchEvent) -> bool {
    match e {
        BranchEvent::Reference(_) => s.stage == BranchStage::AwaitReference,
        BranchEvent::Walk(ev) => s.stage == BranchStage::Walking && view_event_fits(
            s.walk.stage,
            ev,
        ),
        BranchEvent::ReferenceSet => s.stage == BranchStage::AwaitSet,
    }
}

/// Moving on to the next planned reference, or to the end.
pub open spec fn branch_advance(s: BranchViewRunView, t: BranchViewRunView, a: BranchAction) -> bool {
    if s.index + 1 < s.transforms.len() {
        &&& t == BranchViewRunView {
            stage: BranchStage::AwaitReference,
            index: s.index + 1,
            ..s
        }
        &&& a matches BranchAction::FindReference(n) && n@ == s.transforms[s.index + 1].0
    } else {
        &&& t == BranchViewRunView { stage: BranchStage::Done, index: s.index + 1, ..s }
        &&& a is Done
    }
}

/// What follows the walk's action `a0`: its answer is written to the
/// receiving reference, or, when the view hides the commit, the run moves
/// on; any other action is passed on.
pub open spec fn branch_after_walk(
    s: BranchViewRunView,
    a0: ViewWalkAction,
    t: BranchViewRunView,
    a: BranchAction,
) -> bool {
    match a0 {
        ViewWalkAction::Finish(r) => match r {
            Some(c) => {
                &&& t == BranchViewRunView { stage: BranchStage::AwaitSet, ..s }
                &&& a matches BranchAction::SetReference { name, commit } && name@
                    == s.transforms[s.index].1 && commit@ == c@
            },
            None => branch_advance(s, t, a),
        },
        _ => t == BranchViewRunView { stage: BranchStage::Walking, ..s } && a == BranchAction::Walk(
            a0,
        ),
    }
}

/// One step of a run: from view `s`, on event `e`, to view `t`, asking
/// for `a`.
pub open spec fn branch_steps_to(
    s: BranchViewRunView,
    e: BranchEvent,
    t: BranchViewRunView,
    a: BranchAction,
) -> bool {
    match e {
        BranchEvent::Reference(r) => match r {
            None => branch_advance(s, t, a),
            Some(o) => exists|w: ViewWalkView, a0: ViewWalkAction|
                view_walk_starts(s.walk.cache, o@, w, a0) && branch_after_walk(
                    BranchViewRunView { walk: w, ..s },
                    a0,
                    t,
                    a,
                ),
        },
        BranchEvent::Walk(ev) => exists|w: ViewWalkView, a0: ViewWalkAction|
            view_walk_steps_to(s.walk, ev, w, a0) && branch_after_walk(
                BranchViewRunView { walk: w, ..s },
                a0,
                t,
                a,
            ),
        BranchEvent::ReferenceSet => branch_advance(s, t, a),
    }
}

/// Showing a branch through a view keeps the caches of every other branch
/// and view as they were, and leaves a cache under the branch's key that
/// holds every entry of the one that was there (or a new one where there
/// was none): `middle` is what `begin` leaves of `before`, `origin` the
/// cache it takes out, `cache` the cache the run ends with, and `after`
/// what `finish` makes of `middle`.
pub proof fn lemma_branch_view_keeps_caches(
    before: Map<Seq<char>, Map<Seq<char>, Seq<char>>>,
    middle: Map<Seq<char>, Map<Seq<char>, Seq<char>>>,
    after: Map<Seq<char>, Map<Seq<char>, Seq<char>>>,
    key: Seq<char>,
    origin: Map<Seq<char>, Seq<char>>,
    cache: Map<Seq<char>, Seq<char>>,
)
    requires
        middle == before.remove(key),
        origin == cache_under(before, key),
        origin.submap_of(cache),
        after == middle.insert(key, cache),
    ensures
        after.contains_key(key),
        after[key] == cache,
        before.contains_key(key) ==> before[key].submap_of(after[key]),
        forall|k: Seq<char>|
            k != key ==> (#[trigger] after.contains_key(k) == before.contains_key(k)),
        forall|k: Seq<char>| k != key && before.contains_key(k) ==> #[trigger] after[k] == before[k],
{
}

impl BranchViewRun {
    /// Starts showing `branchname` through the view `viewstr`, taking out
    /// the cache kept for them; the view `.` needs nothing and leaves the
    /// caches alone.
    pub fn begin(caches: &mut ViewCaches, branchname: &str, viewstr: &str) -> (r: Option<
        (BranchViewRun, BranchAction),
    >)
        ensures
            match r {
                None => viewstr@ == "."@ && final(caches)@ == old(caches)@,
                Some((run, a)) => {
                    &&& viewstr@ != "."@
                    &&& branch_run_wf(run@)
                    &&& run@.key == branchname@ + "--"@ + viewstr@
                    &&& run@.transforms == planned_transforms(branchname@, viewstr@)
                    &&& final(caches)@ == old(caches)@.remove(run@.key)
                    &&& run@.origin == cache_under(old(caches)@, run@.key)
                    &&& run@.walk.cache == run@.origin
                    &&& run@.index == 0
                    &&& run@.stage == BranchStage::AwaitReference
                    &&& a matches BranchAction::FindReference(n) && n@ == run@.transforms[0].0
                },
            },
    {
        let plan = match apply_view_to_branch(branchname, viewstr) {
            Some(p) => p,
            None => return None,
        };
        proof {
            reveal_strlit("master");
            assert(ref_pairs(plan.transforms@) =~= planned_transforms(branchname@, viewstr@));
        }
        let cache = caches.take(plan.cache_key.as_str());
        let ghost origin = cache@;
        let name = copy_str(plan.transforms[0].0.as_str());
        let run = BranchViewRun {
            stage: BranchStage::AwaitReference,
            key: plan.cache_key,
            transforms: plan.transforms,
            index: 0,
            walk: ViewWalk::idle(cache),
            origin: Ghost(origin),
        };
        Some((run, BranchAction::FindReference(name)))
    }

    /// What the run waits for.
    pub fn stage(&self) -> (st: BranchStage)
        ensures
            st == self@.stage,
    {
        self.stage
    }

    /// Takes in what happened to the last thing asked, and asks for the
    /// next.
    pub fn step(&mut self, event: BranchEvent) -> (a: BranchAction)
        requires
            branch_run_wf(old(self)@),
            branch_event_fits(old(self)@, event),
        ensures
            branch_steps_to(old(self)@, event, final(self)@, a),
            branch_run_wf(final(self)@),
    {
        match event {
            BranchEvent::Reference(r) => match r {
                None => self.advance(),
                Some(o) => {
                    let ghost s = self@;
                    let mut old_walk = ViewWalk::idle(ViewCache::new());
                    std::mem::swap(&mut old_walk, &mut self.walk);
                    let c = old_walk.into_cache();
                    let ghost ov = o@;
                    let (w, a0) = ViewWalk::start(c, o);
                    self.walk = w;
                    let ghost wv = self.walk@;
                    let ghost a0g = a0;
                    assert(self@ == BranchViewRunView { walk: wv, ..s });
                    let a = self.after_walk(a0);
                    assert(view_walk_starts(s.walk.cache, ov, wv, a0g));
                    a
                },
            },
            BranchEvent::Walk(ev) => {
                let ghost s = self@;
                let ghost evg = ev;
                let a0 = self.walk.step(ev);
                let ghost wv = self.walk@;
                let ghost a0g = a0;
                assert(self@ == BranchViewRunView { walk: wv, ..s });
                proof {
                    assert forall|k: Seq<char>| #[trigger] s.origin.contains_key(k) implies
                        wv.cache.contains_key(k) && s.origin[k] == wv.cache[k] by {
                        assert(s.walk.cache.dom().contains(k));
                        assert(wv.cache.dom().contains(k));
                    }
                }
                let a = self.after_walk(a0);
                assert(view_walk_steps_to(s.walk, evg, wv, a0g));
                a
            },
            BranchEvent::ReferenceSet => self.advance(),
        }
    }

    /// Moves on to the next planned reference, or to the end.
    fn advance(&mut self) -> (a: BranchAction)
        requires
            branch_run_wf(old(self)@),
            old(self)@.stage != BranchStage::Done,
        ensures
            branch_advance(old(self)@, final(self)@, a),
            branch_run_wf(final(self)@),
    {
        let n = self.transforms.len();
        assert(ref_pairs(self.transforms@).len() == self.transforms@.len());
        assert(self.index < n);
        self.index = self.index + 1;
        if self.index < self.transforms.len() {
            self.stage = BranchStage::AwaitReference;
            BranchAction::FindReference(copy_str(self.transforms[self.index].0.as_str()))
        } else {
            self.stage = BranchStage::Done;
            BranchAction::Done
        }
    }

    /// Takes the walk's action `a0` on.
    fn after_walk(&mut self, a0: ViewWalkAction) -> (a: BranchAction)
        requires
            branch_run_wf(BranchViewRunView { stage: BranchStage::Walking, ..old(self)@ }),
            old(self)@.index < old(self)@.transforms.len(),
        ensures
            branch_after_walk(old(self)@, a0, final(self)@, a),
            branch_run_wf(final(self)@),
    {
        match a0 {
            ViewWalkAction::Finish(r) => match r {
                Some(c) => {
                    self.stage = BranchStage::AwaitSet;
                    let name = copy_str(self.transforms[self.index].1.as_str());
                    BranchAction::SetReference { name, commit: c }
                },
                None => {
                    self.stage = BranchStage::Walking;
                    self.advance()
                },
            },
            other => {
                self.stage = BranchStage::Walking;
                BranchAction::Walk(other)
            },
        }
    }

    /// Puts the cache back under the key of the branch and the view, with
    /// what the run added: it holds every entry of the cache the run was
    /// started with.
    pub fn finish(self, caches: &mut ViewCaches)
        requires
            branch_run_wf(self@),
        ensures
            final(caches)@ == old(caches)@.insert(self@.key, self@.walk.cache),
            self@.origin.submap_of(self@.walk.cache),
    {
        let BranchViewRun { key, walk, .. } = self;
        caches.put(key, walk.into_cache());
    }
}

// ---------------------------------------------------------------------------
// Taking changes made in a view back into the full history
// ---------------------------------------------------------------------------

/// How taking a view's changes back ended.
pub enum UnapplyView {
    /// The changes were taken back; the commit is the new tip.
    Done(Oid),
    /// The new tip does not descend from the old one.
    RejectNoFF,
    /// A merge commit was met.
    RejectMerge,
    /// Nothing changed.
    NoChanges,
}

/// What taking a view's changes back asks to be done next.
pub enum UnapplyAction {
    /// Tell whether `new` descends from `old`.
    CheckDescendant { new: Oid, old: Oid },
    /// Walk the commits of `range`, oldest first, parents before children,
    /// hiding `hide`, and report the first of them.
    Walk { range: String, hide: Oid },
    /// Report the next commit of the walk.
    NextCommit,
    /// Take the view's changes of `commit` back onto the full commit
    /// `onto`, writing a commit when they change its tree.
    Unapply { commit: Oid, onto: Oid },
    /// It is over.
    Finish(UnapplyView),
}

/// What happened to the last thing asked.
pub enum UnapplyEvent {
    /// Whether the new tip descends from the old one (`false` also when
    /// that could not be told).
    IsDescendant(bool),
    /// The next commit and how many parents it has.
    Commit { id: Oid, parent_count: usize },
    /// The commit written for the changes, if any was.
    Unapplied(Option<Oid>),
    /// No commit is left.
    WalkEnded,
}

/// What the walk waits for.
#[derive(PartialEq, Eq, Structural, Clone, Copy, Debug)]
pub enum UnapplyStage {
    AwaitDescendant,
    AwaitCommit,
    AwaitUnapplied,
    Done,
}

/// Taking the commits pushed to a view, between `old` and `new`, back into
/// the full history on top of `current`.
pub struct UnapplyWalk {
    stage: UnapplyStage,
    current: Oid,
    old: Oid,
    new: Oid,
}

/// The view of an [`UnapplyWalk`].
pub struct UnapplyWalkView {
    pub stage: UnapplyStage,
    pub current: Seq<char>,
    pub old: Seq<char>,
    pub new: Seq<char>,
}

impl View for UnapplyWalk {
    type V = UnapplyWalkView;

    closed spec fn view(&self) -> UnapplyWalkView {
        UnapplyWalkView {
            stage: self.stage,
            current: self.current@,
            old: self.old@,
            new: self.new@,
        }
    }
}

/// The range of commits between two tips, as git writes it.
pub open spec fn range_text(old: Seq<char>, new: Seq<char>) -> Seq<char> {
    old + ".."@ + new
}

/// The event reports what the walk waits for.
pub open spec fn unapply_event_fits(stage: UnapplyStage, e: UnapplyEvent) -> bool {
    match stage {
        UnapplyStage::AwaitDescendant => e is IsDescendant,
        UnapplyStage::AwaitCommit => e is Commit || e is WalkEnded,
        UnapplyStage::AwaitUnapplied => e is Unapplied,
        UnapplyStage::Done => false,
    }
}

/// One step: from view `s`, on event `e`, to view `t`, asking for `a`.
pub open spec fn unapply_steps_to(
    s: UnapplyWalkView,
    e: UnapplyEvent,
    t: UnapplyWalkView,
    a: UnapplyAction,
) -> bool {
    match e {
        UnapplyEvent::IsDescendant(d) => if !d {
            &&& t == UnapplyWalkView { stage: UnapplyStage::Done, ..s }
            &&& a matches UnapplyAction::Finish(r) && r is RejectNoFF
        } else {
            &&& t == UnapplyWalkView { stage: UnapplyStage::AwaitCommit, ..s }
            &&& a matches UnapplyAction::Walk { range, hide } && range@ == range_text(s.old, s.new)
                && hide@ == s.old
        },
        UnapplyEvent::Commit { id, parent_count } => if parent_count > 1 {
            &&& t == UnapplyWalkView { stage: UnapplyStage::Done, ..s }
            &&& a matches UnapplyAction::Finish(r) && r is RejectMerge
        } else {
            &&& t == UnapplyWalkView { stage: UnapplyStage::AwaitUnapplied, ..s }
            &&& a matches UnapplyAction::Unapply { commit, onto } && commit@ == id@ && onto@
                == s.current
        },
        UnapplyEvent::Unapplied(r) => {
            &&& t == UnapplyWalkView {
                stage: UnapplyStage::AwaitCommit,
                current: match r {
                    Some(x) => x@,
                    None => s.current,
                },
                ..s
            }
            &&& a is NextCommit
        },
        UnapplyEvent::WalkEnded => {
            &&& t == UnapplyWalkView { stage: UnapplyStage::Done, ..s }
            &&& a matches UnapplyAction::Finish(UnapplyView::Done(x)) && x@ == s.current
        },
    }
}

impl UnapplyWalk {
    /// Starts taking the commits between `old` and `new` back onto
    /// `current`; when the tips are the same there is nothing to do.
    pub fn unapply_view(current: Oid, old: Oid, new: Oid) -> (r: (UnapplyWalk, UnapplyAction))
        ensures
            r.0@.current == current@,
            r.0@.old == old@,
            r.0@.new == new@,
            if old@ == new@ {
                r.0@.stage == UnapplyStage::Done && (r.1 matches UnapplyAction::Finish(v)
                    && v is NoChanges)
            } else {
                r.0@.stage == UnapplyStage::AwaitDescendant && (r.1 matches UnapplyAction::CheckDescendant {
                    new: n,
                    old: o,
                } && n@ == new@ && o@ == old@)
            },
    {
        if old.same_as(&new) {
            let w = UnapplyWalk { stage: UnapplyStage::Done, current, old, new };
            return (w, UnapplyAction::Finish(UnapplyView::NoChanges));
        }
        let a = UnapplyAction::CheckDescendant { new: new.clone(), old: old.clone() };
        (UnapplyWalk { stage: UnapplyStage::AwaitDescendant, current, old, new }, a)
    }

    /// What the walk waits for.
    pub fn stage(&self) -> (st: UnapplyStage)
        ensures
            st == self@.stage,
    {
        self.stage
    }

    /// Takes in what happened to the last thing asked, and asks for the
    /// next.
    pub fn step(&mut self, event: UnapplyEvent) -> (a: UnapplyAction)
        requires
            unapply_event_fits(old(self)@.stage, event),
        ensures
            unapply_steps_to(old(self)@, event, final(self)@, a),
    {
        match event {
            UnapplyEvent::IsDescendant(d) => {
                if !d {
                    self.stage = UnapplyStage::Done;
                    return UnapplyAction::Finish(UnapplyView::RejectNoFF);
                }
                self.stage = UnapplyStage::AwaitCommit;
                let range = concat3(self.old.as_str(), "..", self.new.as_str());
                UnapplyAction::Walk { range, hide: self.old.clone() }
            },
            UnapplyEvent::Commit { id, parent_count } => {
                if parent_count > 1 {
                    self.stage = UnapplyStage::Done;
                    return UnapplyAction::Finish(UnapplyView::RejectMerge);
                }
                self.stage = UnapplyStage::AwaitUnapplied;
                UnapplyAction::Unapply { commit: id, onto: self.current.clone() }
            },
            UnapplyEvent::Unapplied(r) => {
                match r {
                    Some(x) => {
                        self.current = x;
                    },
                    None => {},
                }
                self.stage = UnapplyStage::AwaitCommit;
                UnapplyAction::NextCommit
            },
            UnapplyEvent::WalkEnded => {
                self.stage = UnapplyStage::Done;
                UnapplyAction::Finish(UnapplyView::Done(self.current.clone()))
            },
        }
    }
}

// ---------------------------------------------------------------------------
// Moving a history into a subdirectory
// ---------------------------------------------------------------------------

/// What moving a history into a subdirectory asks to be done next.
pub enum JoinAction {
    /// Report the next commit of the walk from the tip, oldest first,
    /// parents before children, with its tree moved into the subdirectory.
    NextCommit,
    /// Write a commit like `commit` but with `tree` and `parents`.
    Rewrite { commit: Oid, parents: Vec<Oid>, tree: Oid },
    /// It is over: the moved tip.
    Finish(Oid),
}

/// What happened to the last thing asked.
pub enum JoinEvent {
    /// The next commit, its parents and its tree moved into the
    /// subdirectory.
    Commit { id: Oid, parents: Vec<Oid>, tree: Oid },
    /// The commit written.
    Rewritten(Oid),
    /// No commit is left.
    WalkEnded,
}

/// Moving the history of `src` into a subdirectory, commit by commit.
pub struct JoinWalk {
    awaiting_rewrite: bool,
    src: Oid,
    commit: Oid,
    map: ViewCache,
}

/// The view of a [`JoinWalk`].
pub struct JoinWalkView {
    pub awaiting_rewrite: bool,
    pub src: Seq<char>,
    pub commit: Seq<char>,
    pub map: Map<Seq<char>, Seq<char>>,
}

impl View for JoinWalk {
    type V = JoinWalkView;

    closed spec fn view(&self) -> JoinWalkView {
        JoinWalkView {
            awaiting_rewrite: self.awaiting_rewrite,
            src: self.src@,
            commit: self.commit@,
            map: self.map@,
        }
    }
}

/// The event can be taken in: a commit comes while no rewrite is awaited
/// and after all its parents were moved, a rewrite when one is awaited, and
/// the end once the tip was moved.
pub open spec fn join_event_fits(s: JoinWalkView, e: JoinEvent) -> bool {
    match e {
        JoinEvent::Commit { id, parents, tree } => !s.awaiting_rewrite && forall|i: int|
            0 <= i < parents@.len() ==> s.map.contains_key(#[trigger] parents@[i]@),
        JoinEvent::Rewritten(_) => s.awaiting_rewrite,
        JoinEvent::WalkEnded => !s.awaiting_rewrite && s.map.contains_key(s.src),
    }
}

/// One step: from view `s`, on event `e`, to view `t`, asking for `a`.
pub open spec fn join_steps_to(s: JoinWalkView, e: JoinEvent, t: JoinWalkView, a: JoinAction) -> bool {
    match e {
        JoinEvent::Commit { id, parents, tree } => {
            &&& t == JoinWalkView { awaiting_rewrite: true, commit: id@, ..s }
            &&& a matches JoinAction::Rewrite { commit, parents: p, tree: tr } && commit@ == id@
                && oid_views(p@) == mapped_ids(s.map, oid_views(parents@)) && tr@ == tree@
        },
        JoinEvent::Rewritten(o) => {
            &&& t == JoinWalkView {
                awaiting_rewrite: false,
                map: s.map.insert(s.commit, o@),
                ..s
            }
            &&& a is NextCommit
        },
        JoinEvent::WalkEnded => t == s && (a matches JoinAction::Finish(x) && x@ == s.map[s.src]),
    }
}

impl JoinWalk {
    /// Starts moving the history of `src` into a subdirectory.
    pub fn join_to_subdir(src: Oid) -> (r: (JoinWalk, JoinAction))
        ensures
            r.0@.src == src@,
            !r.0@.awaiting_rewrite,
            r.0@.map == Map::<Seq<char>, Seq<char>>::empty(),
            r.1 is NextCommit,
    {
        (
            JoinWalk { awaiting_rewrite: false, src, commit: Oid::zero(), map: ViewCache::new() },
            JoinAction::NextCommit,
        )
    }

    /// Whether the commit `id` was moved already.
    pub fn moved(&self, id: &Oid) -> (b: bool)
        ensures
            b == self@.map.contains_key(id@),
    {
        self.map.contains(id)
    }

    /// Takes in what happened to the last thing asked, and asks for the
    /// next.
    pub fn step(&mut self, event: JoinEvent) -> (a: JoinAction)
        requires
            join_event_fits(old(self)@, event),
        ensures
            join_steps_to(old(self)@, event, final(self)@, a),
    {
        match event {
            JoinEvent::Commit { id, parents, tree } => {
                let mapped = self.map.mapped_parents(&parents);
                self.commit = id;
                self.awaiting_rewrite = true;
                JoinAction::Rewrite { commit: self.commit.clone(), parents: mapped, tree }
            },
            JoinEvent::Rewritten(o) => {
                let key = self.commit.clone();
                self.map.insert(key, o);
                self.awaiting_rewrite = false;
                JoinAction::NextCommit
            },
            JoinEvent::WalkEnded => {
                match self.map.get(&self.src) {
                    Some(x) => JoinAction::Finish(x),
                    None => {
                        proof {
                            assert(false);
                        }
                        JoinAction::Finish(self.src.clone())
                    },
                }
            },
        }
    }
}

/// When every parent of a commit was moved, every parent is rewritten: the
/// rewritten parents match the parents one for one.
pub proof fn lemma_all_parents_mapped(m: Map<Seq<char>, Seq<char>>, ids: Seq<Seq<char>>)
    requires
        forall|i: int| 0 <= i < ids.len() ==> m.contains_key(#[trigger] ids[i]),
    ensures
        mapped_ids(m, ids) == ids.map_values(|k: Seq<char>| m[k]),
    decreases ids.len(),
{
    if ids.len() > 0 {
        lemma_all_parents_mapped(m, ids.drop_last());
        assert(m.contains_key(ids[ids.len() - 1]));
        assert(ids.map_values(|k: Seq<char>| m[k]) =~= ids.drop_last().map_values(
            |k: Seq<char>| m[k],
        ).push(m[ids.last()]));
    } else {
        assert(ids.map_values(|k: Seq<char>| m[k]) =~= Seq::<Seq<char>>::empty());
    }
}

/// A commit whose parents were all moved is moved onto the moved images of
/// its parents, one for one and in their order, with the tree given: a
/// merge stays a merge with as many parents.
pub proof fn lemma_join_keeps_every_parent(
    s: JoinWalkView,
    e: JoinEvent,
    t: JoinWalkView,
    a: JoinAction,
)
    requires
        join_event_fits(s, e),
        e is Commit,
        join_steps_to(s, e, t, a),
    ensures
        e matches JoinEvent::Commit { id, parents, tree } && a matches JoinAction::Rewrite {
            commit,
            parents: p,
            tree: tr,
        } && commit@ == id@ && tr@ == tree@ && p@.len() == parents@.len() && (forall|i: int|
            0 <= i < parents@.len() ==> #[trigger] p@[i]@ == s.map[parents@[i]@]),
{
    match e {
        JoinEvent::Commit { id, parents, tree } => {
            let ids = oid_views(parents@);
            assert forall|i: int| 0 <= i < ids.len() implies s.map.contains_key(#[trigger] ids[i]) by {
                assert(ids[i] == parents@[i]@);
            }
            lemma_all_parents_mapped(s.map, ids);
            match a {
                JoinAction::Rewrite { commit, parents: p, tree: tr } => {
                    assert(oid_views(p@).len() == p@.len());
                    assert forall|i: int| 0 <= i < parents@.len() implies #[trigger] p@[i]@
                        == s.map[parents@[i]@] by {
                        assert(oid_views(p@)[i] == p@[i]@);
                        assert(ids[i] == parents@[i]@);
                    }
                },
                _ => {},
            }
        },
        _ => {},
    }
}

/// Whenever the walk asks for a rewrite, it is a rewrite of the commit it
/// is on, onto the rewritten parents it took in with that commit, with the
/// view's tree it holds; and those stay as they were.
pub proof fn lemma_rewrite_onto_taken_parents(
    s: ViewWalkView,
    e: ViewWalkEvent,
    t: ViewWalkView,
    a: ViewWalkAction,
)
    requires
        view_walk_steps_to(s, e, t, a),
        a is Rewrite,
    ensures
        a matches ViewWalkAction::Rewrite { commit, parents, tree } && commit@ == s.commit
            && oid_views(parents@) == s.mapped && t.mapped == s.mapped && t.commit == s.commit
            && tree@ == t.tree,
{
}

/// A commit that is not cached yet is taken in with the cached image of
/// each of its parents that the cache holds, in their order; when the
/// cache holds all of them, with one image for each parent.
pub proof fn lemma_commit_takes_cached_parents(
    s: ViewWalkView,
    e: ViewWalkEvent,
    t: ViewWalkView,
    a: ViewWalkAction,
)
    requires
        view_walk_steps_to(s, e, t, a),
        e matches ViewWalkEvent::Commit { id, parents } && !s.cache.contains_key(id@),
    ensures
        e matches ViewWalkEvent::Commit { id, parents } && t.commit == id@ && t.mapped == mapped_ids(
            s.cache,
            oid_views(parents@),
        ) && ((forall|i: int|
            0 <= i < parents@.len() ==> s.cache.contains_key(#[trigger] parents@[i]@)) ==> (
        t.mapped.len() == parents@.len() && forall|i: int|
            0 <= i < parents@.len() ==> #[trigger] t.mapped[i] == s.cache[parents@[i]@])),
{
    match e {
        ViewWalkEvent::Commit { id, parents } => {
            let ids = oid_views(parents@);
            if forall|i: int| 0 <= i < parents@.len() ==> s.cache.contains_key(#[trigger] parents@[i]@) {
                assert forall|i: int| 0 <= i < ids.len() implies s.cache.contains_key(#[trigger] ids[i]) by {
                    assert(ids[i] == parents@[i]@);
                }
                lemma_all_parents_mapped(s.cache, ids);
                assert forall|i: int| 0 <= i < parents@.len() implies #[trigger] t.mapped[i]
                    == s.cache[parents@[i]@] by {
                    assert(ids[i] == parents@[i]@);
                }
            }
        },
        _ => {},
    }
}

/// A merge commit whose parents are all cached, shown through a view that
/// keeps it, is rewritten onto the cached image of every parent, in their
/// order: the merge stays a merge.
pub proof fn lemma_cached_merge_stays_merge(
    s0: ViewWalkView,
    e0: ViewWalkEvent,
    s1: ViewWalkView,
    a0: ViewWalkAction,
    e1: ViewWalkEvent,
    s2: ViewWalkView,
    a1: ViewWalkAction,
)
    requires
        e0 matches ViewWalkEvent::Commit { id, parents } && !s0.cache.contains_key(id@)
            && parents@.len() >= 2 && forall|i: int|
            0 <= i < parents@.len() ==> s0.cache.contains_key(#[trigger] parents@[i]@),
        view_walk_steps_to(s0, e0, s1, a0),
        e1 is Applied && e1->Applied_0 is Some,
        view_walk_steps_to(s1, e1, s2, a1),
    ensures
        e0 matches ViewWalkEvent::Commit { id, parents } && a1 matches ViewWalkAction::Rewrite {
            commit,
            parents: p,
            tree,
        } && commit@ == id@ && p@.len() == parents@.len() && (forall|i: int|
            0 <= i < parents@.len() ==> #[trigger] p@[i]@ == s0.cache[parents@[i]@])
            && tree@ == e1->Applied_0->0@,
{
    lemma_commit_takes_cached_parents(s0, e0, s1, a0);
    match e0 {
        ViewWalkEvent::Commit { id, parents } => {
            assert(s1.mapped.len() == parents@.len());
            lemma_rewrite_onto_taken_parents(s1, e1, s2, a1);
            match a1 {
                ViewWalkAction::Rewrite { commit, parents: p, tree } => {
                    assert forall|i: int| 0 <= i < parents@.len() implies #[trigger] p@[i]@
                        == s0.cache[parents@[i]@] by {
                        assert(oid_views(p@)[i] == p@[i]@);
                        assert(s1.mapped[i] == s0.cache[parents@[i]@]);
                    }
                },
                _ => {},
            }
        },
        _ => {},
    }
}

/// Once a planned reference is set, the run goes on to look up the next
/// planned reference while one is left, and ends only after the last.
pub proof fn lemma_set_reference_goes_on(
    s: BranchViewRunView,
    t: BranchViewRunView,
    a: BranchAction,
)
    requires
        s.stage == BranchStage::AwaitSet,
        branch_steps_to(s, BranchEvent::ReferenceSet, t, a),
    ensures
        t.index == s.index + 1,
        t.transforms == s.transforms,
        t.walk == s.walk,
        s.index + 1 < s.transforms.len() ==> t.stage == BranchStage::AwaitReference && (a matches BranchAction::FindReference(
            n,
        ) && n@ == s.transforms[s.index + 1].0),
        s.index + 1 >= s.transforms.len() ==> t.stage == BranchStage::Done && a is Done,
{
}

/// A planned reference that does not exist is passed over: the run goes
/// on to look up the next planned reference while one is left.
pub proof fn lemma_missing_reference_goes_on(
    s: BranchViewRunView,
    t: BranchViewRunView,
    a: BranchAction,
)
    requires
        s.stage == BranchStage::AwaitReference,
        branch_steps_to(s, BranchEvent::Reference(None), t, a),
    ensures
        t.index == s.index + 1,
        t.walk == s.walk,
        s.index + 1 < s.transforms.len() ==> t.stage == BranchStage::AwaitReference && (a matches BranchAction::FindReference(
            n,
        ) && n@ == s.transforms[s.index + 1].0),
        s.index + 1 >= s.transforms.len() ==> t.stage == BranchStage::Done && a is Done,
{
}

/// When the walk ends with the view hiding the tip, no reference is set
/// and the run goes on to the next planned reference while one is left.
pub proof fn lemma_hidden_tip_goes_on(
    s: BranchViewRunView,
    e: ViewWalkEvent,
    t: BranchViewRunView,
    a: BranchAction,
)
    requires
        s.stage == BranchStage::Walking,
        e is WalkEnded,
        !s.walk.cache.contains_key(s.walk.newrev),
        branch_steps_to(s, BranchEvent::Walk(e), t, a),
    ensures
        t.index == s.index + 1,
        !(a is SetReference),
        s.index + 1 < s.transforms.len() ==> (a matches BranchAction::FindReference(n) && n@
            == s.transforms[s.index + 1].0),
        s.index + 1 >= s.transforms.len() ==> a is Done,
{
}

/// A reference whose commit the cache already shows through the view is
/// answered at once: the receiving reference is set to the cached commit.
pub proof fn lemma_cached_reference_is_set(
    s: BranchViewRunView,
    o: Oid,
    t: BranchViewRunView,
    a: BranchAction,
)
    requires
        s.stage == BranchStage::AwaitReference,
        s.walk.cache.contains_key(o@),
        branch_steps_to(s, BranchEvent::Reference(Some(o)), t, a),
    ensures
        t.stage == BranchStage::AwaitSet,
        t.index == s.index,
        a matches BranchAction::SetReference { name, commit } && name@ == s.transforms[s.index].1
            && commit@ == s.walk.cache[o@],
{
}

/// Showing `master` through a view plans two references: the branch into
/// the view's namespace, then `master` again as the view's `HEAD`; any
/// other branch plans one.
pub proof fn lemma_master_also_sets_head(viewstr: Seq<char>)
    ensures
        planned_transforms("master"@, viewstr).len() == 2,
        planned_transforms("master"@, viewstr)[0] == (
            "refs/heads/master"@,
            "refs/namespaces/"@ + view_namespace(viewstr) + "/refs/heads/master"@,
        ),
        planned_transforms("master"@, viewstr)[1] == (
            "refs/heads/master"@,
            "refs/namespaces/"@ + view_namespace(viewstr) + "/HEAD"@,
        ),
        forall|b: Seq<char>| b != "master"@ ==> #[trigger] planned_transforms(b, viewstr).len() == 1,
{
    reveal_strlit("refs/heads/");
    reveal_strlit("master");
    reveal_strlit("refs/heads/master");
    reveal_strlit("/refs/heads/");
    reveal_strlit("/refs/heads/master");
    let ns = view_namespace(viewstr);
    assert("refs/heads/"@ + "master"@ =~= "refs/heads/master"@);
    assert("refs/namespaces/"@ + ns + "/refs/heads/"@ + "master"@ =~= "refs/namespaces/"@ + ns
        + "/refs/heads/master"@);
}

/// For `master`, once the branch's view is set, the run looks up
/// `refs/heads/master` again to set the view's `HEAD`.
pub proof fn lemma_master_run_goes_on_to_head(
    viewstr: Seq<char>,
    s: BranchViewRunView,
    t: BranchViewRunView,
    a: BranchAction,
)
    requires
        s.transforms == planned_transforms("master"@, viewstr),
        s.index == 0,
        s.stage == BranchStage::AwaitSet,
        branch_steps_to(s, BranchEvent::ReferenceSet, t, a),
    ensures
        t.stage == BranchStage::AwaitReference,
        t.index == 1,
        a matches BranchAction::FindReference(n) && n@ == "refs/heads/master"@,
        t.transforms[t.index].1 == "refs/namespaces/"@ + view_namespace(viewstr) + "/HEAD"@,
{
    lemma_master_also_sets_head(viewstr);
    lemma_set_reference_goes_on(s, t, a);
}

} // verus!
