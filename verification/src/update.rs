//! Processing a push that a client made to a filtered view: the pushed
//! history is filtered back onto the upstream branch and pushed upstream.
//!
//! The work alternates between the repository, the filter engine, the
//! remote and the decisions taken here. An [`UpdateSession`] holds the
//! decisions: it is told what happened ([`UpdateEvent`]) and answers with
//! the next thing to do ([`UpdateAction`]), until it answers `Finish`.

use vstd::prelude::*;

use crate::changes::{
    authored_by, branch_name, branch_of, change_ids_to_refs, change_views, first_fault,
    refs_for_changes, reports, Change, ChangeView,
};
use crate::error::ProxyError;
use crate::oid::{oid_text_of, parses_as_oid, Oid};
use crate::options::PushOptions;
use crate::refs::{
    base_ref_of, baseref_and_options, is_review_push, push_option_list, push_target,
    lemma_refname_round_trip, ref_with_options, with_options,
};
use crate::text::{concat2, concat3, copy_str, has_char, has_prefix, join, join_exec, views};

verus! {

/// One reference that a push updated: its name and the commits before and
/// after, as hexadecimal text.
pub struct RefUpdate {
    pub refname: String,
    pub old: String,
    pub new: String,
}

/// What the receiving hook reports of a push to a filtered view.
pub struct RepoUpdate {
    /// The references that the push updated.
    pub refs: Vec<RefUpdate>,
    /// The upstream remote.
    pub remote_url: String,
    /// The handle of the credentials that the push is made with.
    pub auth: String,
    pub port: String,
    /// The filter that the view applies.
    pub filter_spec: String,
    /// The namespace of the upstream repository.
    pub base_ns: String,
    /// The namespace of the request.
    pub git_ns: String,
    /// The repository on disk.
    pub git_dir: String,
    /// Whether review pushes push each change to a reference of its own.
    pub stacked_changes: bool,
    pub context_propagator: Vec<(String, String)>,
}

/// How filtering the pushed history back ended.
pub enum UnapplyResult {
    /// The history was filtered back; the commit is its new tip.
    Done(Oid),
    /// The branch does not exist upstream.
    BranchDoesNotExist,
    /// A merge was refused; the text says why.
    RejectMerge(String),
    /// Amending with conflicting changes was refused.
    RejectAmend(String),
}

/// What the session asks to be done next.
pub enum UpdateAction {
    /// Open the transaction on the repository, with the upstream
    /// references under `upstream_prefix`.
    OpenTransaction { upstream_prefix: String },
    /// Resolve `rev` to a commit.
    ResolveRevision { rev: String },
    /// Tell whether the upstream reference `name` exists.
    CheckBranch { name: String },
    /// Resolve the upstream reference `name` to a commit.
    ResolveTarget { name: String },
    /// Parse the filter `spec`.
    ParseFilter { spec: String },
    /// Filter the history between `old` and `new` back onto
    /// `original_target`.
    Unapply {
        original_target: Oid,
        old: Oid,
        new: Oid,
        merge: bool,
        reparent_orphans: Option<Oid>,
        collect_changes: bool,
    },
    /// Merge `commit` into the upstream reference `target_name`, with the
    /// commit message `message`.
    Merge { target_name: String, commit: Oid, message: String },
    /// Push `oid` upstream to `refname`, reporting it as `display_name`.
    Push { refname: String, oid: Oid, display_name: String, force: bool },
    /// Compute the filter's warnings for the tree of `oid`.
    ComputeWarnings { oid: Oid },
    /// Apply the filter to `oid` again.
    Reapply { oid: Oid },
    /// Point the reference `name` at `oid`.
    WriteRewrite { name: String, oid: Oid },
    /// The update is over, with this answer for the client.
    Finish(Result<String, ProxyError>),
}

/// What happened to the last thing asked.
pub enum UpdateEvent {
    Opened,
    RevisionResolved(Option<Oid>),
    BranchChecked(bool),
    TargetResolved(Option<Oid>),
    FilterParsed,
    Unapplied { result: UnapplyResult, changes: Vec<Change> },
    Merged(Option<Oid>),
    Pushed { text: String, status: i32 },
    Warnings(Vec<String>),
    Reapplied { oid: Oid, filter_id: String },
    RewriteWritten,
    /// The step failed; the text is its report.
    Failed(String),
}

/// What the session waits for.
#[derive(PartialEq, Eq, Structural, Clone, Copy, Debug)]
pub enum Stage {
    AwaitOpen,
    AwaitRevision,
    AwaitBranchCheck,
    AwaitTarget,
    AwaitFilter,
    AwaitUnapply,
    AwaitMerge,
    AwaitPush,
    AwaitWarnings,
    AwaitReapply,
    AwaitRewrite,
    Done,
}

/// The decisions taken while one push is processed.
pub struct UpdateSession {
    stage: Stage,
    options: PushOptions,
    filter_spec: String,
    base_ns: String,
    git_ns: String,
    stacked_flag: bool,
    old_text: String,
    new_text: String,
    baseref: String,
    push_to: String,
    opts: Vec<String>,
    for_review: bool,
    old: Oid,
    target_name: String,
    target: Oid,
    new_oid: Oid,
    changes: Vec<Change>,
    oid_to_push: Oid,
    to_push: Vec<(String, Oid, String)>,
    next: usize,
    resp: Vec<String>,
    rewrite_text: String,
}

/// The view of an [`UpdateSession`].
pub struct SessionView {
    pub stage: Stage,
    pub options: Map<Seq<char>, Seq<char>>,
    pub filter_spec: Seq<char>,
    pub base_ns: Seq<char>,
    pub git_ns: Seq<char>,
    pub stacked_flag: bool,
    pub old_text: Seq<char>,
    pub new_text: Seq<char>,
    pub baseref: Seq<char>,
    pub push_to: Seq<char>,
    pub opts: Seq<Seq<char>>,
    pub for_review: bool,
    pub old: Seq<char>,
    pub target_name: Seq<char>,
    pub target: Seq<char>,
    pub new_oid: Seq<char>,
    pub changes: Seq<ChangeView>,
    pub oid_to_push: Seq<char>,
    pub to_push: Seq<(String, Oid, String)>,
    pub next: int,
    pub resp: Seq<Seq<char>>,
    pub rewrite_text: Seq<char>,
}

impl View for UpdateSession {
    type V = SessionView;

    closed spec fn view(&self) -> SessionView {
        SessionView {
            stage: self.stage,
            options: self.options@,
            filter_spec: self.filter_spec@,
            base_ns: self.base_ns@,
            git_ns: self.git_ns@,
            stacked_flag: self.stacked_flag,
            old_text: self.old_text@,
            new_text: self.new_text@,
            baseref: self.baseref@,
            push_to: self.push_to@,
            opts: views(self.opts@),
            for_review: self.for_review,
            old: self.old@,
            target_name: self.target_name@,
            target: self.target@,
            new_oid: self.new_oid@,
            changes: change_views(self.changes@),
            oid_to_push: self.oid_to_push@,
            to_push: self.to_push@,
            next: self.next as int,
            resp: views(self.resp@),
            rewrite_text: self.rewrite_text@,
        }
    }
}

// ---------------------------------------------------------------------------
// The texts the session builds
// ---------------------------------------------------------------------------

/// Where the transaction finds the upstream references.
pub open spec fn upstream_prefix(base_ns: Seq<char>) -> Seq<char> {
    "refs/josh/upstream/"@ + base_ns + "/"@
}

/// The request's own copy of the branch, which stands in for an all-zero
/// old commit.
pub open spec fn revision_in_request(git_ns: Seq<char>, baseref: Seq<char>) -> Seq<char> {
    "refs/namespaces/"@ + git_ns + "/"@ + baseref
}

/// The branch reference named by the `base` push option.
pub open spec fn base_branch_ref(base: Seq<char>) -> Seq<char> {
    "refs/heads/"@ + base
}

/// The message of the merge commit made for the `merge` push option.
pub open spec fn merge_message(filter_spec: Seq<char>) -> Seq<char> {
    "Merge from "@ + filter_spec
}

/// The value of the `author` push option, empty when it was not given.
pub open spec fn author_option(options: Map<Seq<char>, Seq<char>>) -> Seq<char> {
    if options.contains_key("author"@) {
        options["author"@]
    } else {
        ""@
    }
}

/// The reference that the whole stack of a stacked push goes to.
pub open spec fn heads_ref(baseref: Seq<char>, author: Seq<char>) -> Seq<char> {
    "refs/heads/@heads/"@ + branch_of(baseref) + "/"@ + author
}

/// The reference that records a commit that filtering did not give back.
pub open spec fn rewrite_ref(base_ns: Seq<char>, filter_id: Seq<char>, reapplied: Seq<char>) -> Seq<
    char,
> {
    "refs/josh/rewrites/"@ + base_ns + "/"@ + filter_id + "/r_"@ + reapplied
}

/// The line that reports such a commit to the client.
pub open spec fn rewrite_line(new: Seq<char>, reapplied: Seq<char>) -> Seq<char> {
    "REWRITE("@ + new + " -> "@ + reapplied + ")"@
}

/// The answer to the client: the collected lines, one per line.
pub open spec fn response_text(resp: Seq<Seq<char>>) -> Seq<char> {
    join(resp, "\n"@)
}

/// Whether the push goes out as a stack of changes.
pub open spec fn is_stacked(s: SessionView) -> bool {
    s.stacked_flag && s.for_review
}

/// The views of one entry of the list of pushes.
pub open spec fn push_entry_is(
    e: (String, Oid, String),
    refname: Seq<char>,
    oid: Seq<char>,
    display: Seq<char>,
) -> bool {
    e.0@ == refname && e.1@ == oid && e.2@ == display
}

/// The action pushes the `i`-th entry of the list.
pub open spec fn pushes_entry(a: UpdateAction, s: SessionView, i: int) -> bool {
    a matches UpdateAction::Push { refname, oid, display_name, force } && refname@ == s.to_push[
        i
    ].0@ && oid@ == s.to_push[i].1@ && display_name@ == s.to_push[i].2@ && force == is_stacked(
        s,
    )
}

/// The list of pushes made for the commit `t.oid_to_push`: for a stacked
/// push the whole stack and then each change, otherwise the pushed name.
pub open spec fn planned_pushes(t: SessionView) -> bool {
    if is_stacked(t) {
        let author = author_option(t.options);
        &&& t.to_push.len() >= 1
        &&& push_entry_is(
            t.to_push[0],
            heads_ref(t.baseref, author),
            t.oid_to_push,
            branch_of(t.baseref),
        )
        &&& refs_for_changes(
            t.to_push.skip(1),
            authored_by(t.changes, author),
            t.baseref,
            author,
        )
    } else {
        &&& t.to_push.len() == 1
        &&& push_entry_is(t.to_push[0], with_options(t.push_to, t.opts), t.oid_to_push, "JOSH_PUSH"@)
    }
}

/// The fault that stops a stacked push, when there is one.
pub open spec fn stack_refused(t: SessionView) -> bool {
    let author = author_option(t.options);
    let kept = authored_by(t.changes, author);
    is_stacked(t) && (!has_char(author, '@') || first_fault(kept, kept.len() as int) is Some)
}

/// The error that reports why a stacked push is refused.
pub open spec fn reports_stack_fault(t: SessionView, e: ProxyError) -> bool {
    let author = author_option(t.options);
    let kept = authored_by(t.changes, author);
    if !has_char(author, '@') {
        e is AuthorNotEmail
    } else {
        reports(e, first_fault(kept, kept.len() as int)->0)
    }
}

/// Pushing starts with the commit `oid`: the list of pushes is planned and
/// its first entry pushed, or the push is refused.
pub open spec fn starts_pushing(s: SessionView, oid: Seq<char>, t: SessionView, a: UpdateAction) -> bool {
    if stack_refused(SessionView { oid_to_push: oid, ..s }) {
        &&& t == SessionView { stage: Stage::Done, oid_to_push: oid, ..s }
        &&& a matches UpdateAction::Finish(Err(e)) && reports_stack_fault(t, e)
    } else {
        &&& t == SessionView {
            stage: Stage::AwaitPush,
            oid_to_push: oid,
            to_push: t.to_push,
            next: 0,
            resp: Seq::<Seq<char>>::empty(),
            ..s
        }
        &&& planned_pushes(t)
        &&& pushes_entry(a, t, 0)
    }
}

/// The target is asked for: the `base` push option's branch is checked
/// first when given, otherwise the pushed branch is resolved.
pub open spec fn requests_target(s: SessionView, t: SessionView, a: UpdateAction) -> bool {
    if s.options.contains_key("base"@) {
        &&& t == SessionView { stage: Stage::AwaitBranchCheck, ..s }
        &&& a matches UpdateAction::CheckBranch { name } && name@ == base_branch_ref(
            s.options["base"@],
        )
    } else {
        &&& t == SessionView { stage: Stage::AwaitTarget, target_name: s.baseref, ..s }
        &&& a matches UpdateAction::ResolveTarget { name } && name@ == s.baseref
    }
}

/// The session is over.
pub open spec fn finished(t: SessionView, a: UpdateAction) -> bool {
    t.stage == Stage::Done && a is Finish
}

/// The event reports what the stage waits for.
pub open spec fn event_fits(stage: Stage, e: UpdateEvent) -> bool {
    match stage {
        Stage::AwaitOpen => e is Opened,
        Stage::AwaitRevision => e is RevisionResolved,
        Stage::AwaitBranchCheck => e is BranchChecked,
        Stage::AwaitTarget => e is TargetResolved,
        Stage::AwaitFilter => e is FilterParsed,
        Stage::AwaitUnapply => e is Unapplied,
        Stage::AwaitMerge => e is Merged,
        Stage::AwaitPush => e is Pushed,
        Stage::AwaitWarnings => e is Warnings,
        Stage::AwaitReapply => e is Reapplied,
        Stage::AwaitRewrite => e is RewriteWritten,
        Stage::Done => false,
    }
}

/// The all-zero object id.
pub open spec fn zero_oid() -> Seq<char> {
    Seq::new(40, |i: int| '0')
}

/// The views of an optional id.
pub open spec fn opt_oid(o: Option<Oid>) -> Option<Seq<char>> {
    match o {
        Some(x) => Some(x@),
        None => None,
    }
}

impl UpdateSession {
    /// The session's own consistency: while pushing, the next entry exists.
    pub closed spec fn wf(&self) -> bool {
        &&& (self.stage == Stage::AwaitPush || self.stage == Stage::AwaitWarnings) ==> self.next
            < self.to_push@.len()
        &&& self.stage == Stage::AwaitBranchCheck ==> self.options@.contains_key("base"@)
    }

    /// Starts processing `update`, given the text of the stored push
    /// options. Only the first updated reference is processed.
    pub fn start(update: &RepoUpdate, push_options: &str) -> (r: (UpdateSession, UpdateAction))
        ensures
            r.0.wf(),
            match crate::options::json_string_object(push_options@) {
                None => finished(r.0@, r.1) && (r.1 matches UpdateAction::Finish(Err(e))
                    && e is BadPushOptions),
                Some(m) => if update.refs@.len() == 0 {
                    finished(r.0@, r.1) && (r.1 matches UpdateAction::Finish(Ok(t)) && t@ == ""@)
                } else {
                    let first = update.refs@[0];
                    &&& r.0@.stage == Stage::AwaitOpen
                    &&& r.1 matches UpdateAction::OpenTransaction { upstream_prefix: p }
                        && p@ == upstream_prefix(update.base_ns@)
                    &&& r.0@.options == m
                    &&& r.0@.filter_spec == update.filter_spec@
                    &&& r.0@.base_ns == update.base_ns@
                    &&& r.0@.git_ns == update.git_ns@
                    &&& r.0@.stacked_flag == update.stacked_changes
                    &&& r.0@.old_text == first.old@
                    &&& r.0@.new_text == first.new@
                    &&& r.0@.baseref == base_ref_of(first.refname@)
                    &&& r.0@.push_to == push_target(first.refname@)
                    &&& r.0@.opts == push_option_list(first.refname@)
                    &&& r.0@.for_review == is_review_push(first.refname@)
                },
            },
    {
        let options = match PushOptions::parse(push_options) {
            Ok(o) => o,
            Err(e) => {
                let s = UpdateSession::blank(PushOptions::empty(), update, Stage::Done);
                return (s, UpdateAction::Finish(Err(e)));
            },
        };
        if update.refs.len() == 0 {
            let s = UpdateSession::blank(options, update, Stage::Done);
            proof {
                reveal_strlit("");
            }
            return (s, UpdateAction::Finish(Ok(String::new())));
        }
        let first = &update.refs[0];
        let mut s = UpdateSession::blank(options, update, Stage::AwaitOpen);
        s.old_text = copy_str(first.old.as_str());
        s.new_text = copy_str(first.new.as_str());
        match baseref_and_options(first.refname.as_str()) {
            Ok((baseref, push_to, opts, for_review)) => {
                s.baseref = baseref;
                s.push_to = push_to;
                s.opts = opts;
                s.for_review = for_review;
            },
            Err(_) => {},
        }
        let prefix = concat3("refs/josh/upstream/", update.base_ns.as_str(), "/");
        (s, UpdateAction::OpenTransaction { upstream_prefix: prefix })
    }

    /// A session with its inputs taken from `update` and nothing decided.
    fn blank(options: PushOptions, update: &RepoUpdate, stage: Stage) -> (s: UpdateSession)
        requires
            stage != Stage::AwaitPush && stage != Stage::AwaitWarnings && stage
                != Stage::AwaitBranchCheck,
        ensures
            s@.stage == stage,
            s@.options == options@,
            s@.filter_spec == update.filter_spec@,
            s@.base_ns == update.base_ns@,
            s@.git_ns == update.git_ns@,
            s@.stacked_flag == update.stacked_changes,
            s.wf(),
    {
        UpdateSession {
            stage,
            options,
            filter_spec: copy_str(update.filter_spec.as_str()),
            base_ns: copy_str(update.base_ns.as_str()),
            git_ns: copy_str(update.git_ns.as_str()),
            stacked_flag: update.stacked_changes,
            old_text: String::new(),
            new_text: String::new(),
            baseref: String::new(),
            push_to: String::new(),
            opts: Vec::new(),
            for_review: false,
            old: Oid::zero(),
            target_name: String::new(),
            target: Oid::zero(),
            new_oid: Oid::zero(),
            changes: Vec::new(),
            oid_to_push: Oid::zero(),
            to_push: Vec::new(),
            next: 0,
            resp: Vec::new(),
            rewrite_text: String::new(),
        }
    }

    /// What the session waits for.
    pub fn stage(&self) -> (st: Stage)
        ensures
            st == self@.stage,
    {
        self.stage
    }

    /// Ends the session with an error.
    fn fail(&mut self, e: ProxyError) -> (a: UpdateAction)
        ensures
            final(self)@ == (SessionView { stage: Stage::Done, ..old(self)@ }),
            a == UpdateAction::Finish(Err(e)),
            final(self).wf(),
    {
        self.stage = Stage::Done;
        UpdateAction::Finish(Err(e))
    }

    /// Asks for the target reference.
    fn request_target(&mut self) -> (a: UpdateAction)
        requires
            old(self).wf(),
        ensures
            requests_target(old(self)@, final(self)@, a),
            final(self).wf(),
    {
        match self.options.get("base") {
            Some(base) => {
                self.stage = Stage::AwaitBranchCheck;
                UpdateAction::CheckBranch { name: concat2("refs/heads/", base.as_str()) }
            },
            None => {
                self.stage = Stage::AwaitTarget;
                self.target_name = copy_str(self.baseref.as_str());
                UpdateAction::ResolveTarget { name: copy_str(self.baseref.as_str()) }
            },
        }
    }

    /// Asks for the push of the next entry of the list.
    fn push_next(&self) -> (a: UpdateAction)
        requires
            self.next < self.to_push@.len(),
        ensures
            pushes_entry(a, self@, self@.next),
    {
        let e = &self.to_push[self.next];
        UpdateAction::Push {
            refname: copy_str(e.0.as_str()),
            oid: e.1.clone(),
            display_name: copy_str(e.2.as_str()),
            force: self.stacked_flag && self.for_review,
        }
    }

    /// Plans the pushes of `oid` and asks for the first one.
    fn start_pushing(&mut self, oid: Oid) -> (a: UpdateAction)
        requires
            old(self).wf(),
        ensures
            starts_pushing(old(self)@, oid@, final(self)@, a),
            final(self).wf(),
    {
        self.oid_to_push = oid;
        let stacked = self.stacked_flag && self.for_review;
        let author = match self.options.get("author") {
            Some(a) => a,
            None => String::new(),
        };
        let mut plan: Vec<(String, Oid, String)> = Vec::new();
        if stacked {
            let branch = branch_name(self.baseref.as_str());
            let mut head = concat3("refs/heads/@heads/", branch.as_str(), "/");
            head.append(author.as_str());
            plan.push((head, self.oid_to_push.clone(), branch));
            let mut changes: Vec<Change> = Vec::new();
            let mut i: usize = 0;
            while i < self.changes.len()
                invariant
                    i <= self.changes@.len(),
                    changes@.len() == i,
                    forall|k: int| 0 <= k < i ==> (#[trigger] changes@[k])@ == self.changes@[k]@,
                decreases self.changes.len() - i,
            {
                changes.push(self.changes[i].clone());
                i += 1;
            }
            assert(change_views(changes@) =~= change_views(self.changes@));
            proof {
                reveal_strlit("");
            }
            match change_ids_to_refs(copy_str(self.baseref.as_str()), author, changes) {
                Ok(mut refs) => {
                    let ghost rv = refs@;
                    plan.append(&mut refs);
                    assert(plan@.skip(1) =~= rv);
                },
                Err(e) => {
                    return self.fail(e);
                },
            }
        } else {
            let name = ref_with_options(self.push_to.as_str(), &self.opts);
            plan.push((name, self.oid_to_push.clone(), copy_str("JOSH_PUSH")));
        }
        self.to_push = plan;
        self.next = 0;
        self.resp = Vec::new();
        assert(views(self.resp@) =~= Seq::<Seq<char>>::empty());
        self.stage = Stage::AwaitPush;
        self.push_next()
    }
}

/// After the transaction is open, the old commit is read; an all-zero one
/// stands for the request's own copy of the branch, which is resolved
/// first.
pub open spec fn after_open(s: SessionView, t: SessionView, a: UpdateAction) -> bool {
    if !parses_as_oid(s.old_text) {
        &&& t == SessionView { stage: Stage::Done, ..s }
        &&& a matches UpdateAction::Finish(Err(e)) && e is BadOid
    } else if oid_text_of(s.old_text) == zero_oid() {
        &&& t == SessionView { stage: Stage::AwaitRevision, old: oid_text_of(s.old_text), ..s }
        &&& a matches UpdateAction::ResolveRevision { rev } && rev@ == revision_in_request(
            s.git_ns,
            s.baseref,
        )
    } else {
        requests_target(SessionView { old: oid_text_of(s.old_text), ..s }, t, a)
    }
}

/// After the filter is parsed, the new commit is read and the pushed
/// history is filtered back onto the target.
pub open spec fn after_filter(s: SessionView, t: SessionView, a: UpdateAction) -> bool {
    if !parses_as_oid(s.new_text) {
        &&& t == SessionView { stage: Stage::Done, ..s }
        &&& a matches UpdateAction::Finish(Err(e)) && e is BadOid
    } else {
        &&& t == SessionView { stage: Stage::AwaitUnapply, new_oid: oid_text_of(s.new_text), ..s }
        &&& a matches UpdateAction::Unapply {
            original_target,
            old,
            new,
            merge,
            reparent_orphans,
            collect_changes,
        } && original_target@ == s.target && old@ == s.old && new@ == oid_text_of(s.new_text)
            && merge == s.options.contains_key("merge"@) && opt_oid(reparent_orphans) == (if s.options.contains_key(
            "create"@,
        ) {
            Some(s.target)
        } else {
            None
        }) && collect_changes == is_stacked(s)
    }
}

/// After the history was filtered back.
pub open spec fn after_unapply(
    s: SessionView,
    result: UnapplyResult,
    changes: Seq<ChangeView>,
    t: SessionView,
    a: UpdateAction,
) -> bool {
    match result {
        UnapplyResult::Done(b) => {
            let s1 = SessionView { changes: changes, ..s };
            if s.options.contains_key("merge"@) {
                &&& t == SessionView { stage: Stage::AwaitMerge, ..s1 }
                &&& a matches UpdateAction::Merge { target_name, commit, message }
                    && target_name@ == s.target_name && commit@ == b@ && message@ == merge_message(
                    s.filter_spec,
                )
            } else {
                starts_pushing(s1, b@, t, a)
            }
        },
        UnapplyResult::BranchDoesNotExist => {
            &&& t == SessionView { stage: Stage::Done, ..s }
            &&& a matches UpdateAction::Finish(Err(e)) && e is BranchDoesNotExist
        },
        UnapplyResult::RejectMerge(m) => {
            &&& t == SessionView { stage: Stage::Done, ..s }
            &&& a matches UpdateAction::Finish(Err(ProxyError::RejectMerge(x))) && x@ == m@
        },
        UnapplyResult::RejectAmend(m) => {
            &&& t == SessionView { stage: Stage::Done, ..s }
            &&& a matches UpdateAction::Finish(Err(ProxyError::RejectAmend(x))) && x@ == m@
        },
    }
}

/// The lines collected after the warnings of one push.
pub open spec fn with_warnings(resp: Seq<Seq<char>>, warnings: Seq<Seq<char>>) -> Seq<Seq<char>> {
    if warnings.len() > 0 {
        resp.push("warnings:"@) + warnings
    } else {
        resp
    }
}

/// After the warnings of a push: the next push, or the filter is applied
/// again to what was pushed.
pub open spec fn after_warnings(
    s: SessionView,
    warnings: Seq<Seq<char>>,
    t: SessionView,
    a: UpdateAction,
) -> bool {
    let resp = with_warnings(s.resp, warnings);
    if s.next + 1 < s.to_push.len() {
        &&& t == SessionView { stage: Stage::AwaitPush, resp: resp, next: s.next + 1, ..s }
        &&& pushes_entry(a, t, s.next + 1)
    } else {
        &&& t == SessionView { stage: Stage::AwaitReapply, resp: resp, next: s.next + 1, ..s }
        &&& a matches UpdateAction::Reapply { oid } && oid@ == s.oid_to_push
    }
}

/// After the filter was applied again: when it does not give back the new
/// commit, the result is recorded and reported.
pub open spec fn after_reapply(
    s: SessionView,
    reapplied: Seq<char>,
    filter_id: Seq<char>,
    t: SessionView,
    a: UpdateAction,
) -> bool {
    if reapplied != s.new_oid {
        &&& t == SessionView {
            stage: Stage::AwaitRewrite,
            rewrite_text: rewrite_line(s.new_oid, reapplied),
            ..s
        }
        &&& a matches UpdateAction::WriteRewrite { name, oid } && name@ == rewrite_ref(
            s.base_ns,
            filter_id,
            reapplied,
        ) && oid@ == reapplied
    } else {
        &&& t == SessionView { stage: Stage::Done, ..s }
        &&& a matches UpdateAction::Finish(Ok(x)) && x@ == response_text(s.resp)
    }
}

/// One step of the session: from view `s`, on event `e`, to view `t`,
/// asking for `a`.
pub open spec fn steps_to(s: SessionView, e: UpdateEvent, t: SessionView, a: UpdateAction) -> bool {
    if s.stage != Stage::Done && e is Failed {
        &&& t == SessionView { stage: Stage::Done, ..s }
        &&& a matches UpdateAction::Finish(Err(ProxyError::Outside(x))) && x@ == e->Failed_0@
    } else if !event_fits(s.stage, e) {
        &&& t == SessionView { stage: Stage::Done, ..s }
        &&& a matches UpdateAction::Finish(Err(err)) && err is UnexpectedEvent
    } else {
        match e {
            UpdateEvent::Opened => after_open(s, t, a),
            UpdateEvent::RevisionResolved(r) => requests_target(
                SessionView {
                    old: match opt_oid(r) {
                        Some(x) => x,
                        None => s.old,
                    },
                    ..s
                },
                t,
                a,
            ),
            UpdateEvent::BranchChecked(exists) => {
                let base = s.options["base"@];
                let name = if exists {
                    base_branch_ref(base)
                } else {
                    base
                };
                &&& t == SessionView { stage: Stage::AwaitTarget, target_name: name, ..s }
                &&& a matches UpdateAction::ResolveTarget { name: n } && n@ == name
            },
            UpdateEvent::TargetResolved(r) => match r {
                None => {
                    &&& t == SessionView { stage: Stage::Done, ..s }
                    &&& a matches UpdateAction::Finish(Err(ProxyError::TargetMissing(b)))
                        && b@ == s.baseref
                },
                Some(x) => {
                    &&& t == SessionView { stage: Stage::AwaitFilter, target: x@, ..s }
                    &&& a matches UpdateAction::ParseFilter { spec } && spec@ == s.filter_spec
                },
            },
            UpdateEvent::FilterParsed => after_filter(s, t, a),
            UpdateEvent::Unapplied { result, changes } => after_unapply(
                s,
                result,
                change_views(changes@),
                t,
                a,
            ),
            UpdateEvent::Merged(r) => match r {
                None => {
                    &&& t == SessionView { stage: Stage::Done, ..s }
                    &&& a matches UpdateAction::Finish(Err(e)) && e is MergeFailed
                },
                Some(o) => starts_pushing(s, o@, t, a),
            },
            UpdateEvent::Pushed { text, status } => if status != 0 {
                &&& t == SessionView { stage: Stage::Done, ..s }
                &&& a matches UpdateAction::Finish(Err(ProxyError::PushFailed(x))) && x@ == text@
            } else {
                &&& t == SessionView {
                    stage: Stage::AwaitWarnings,
                    resp: s.resp.push(text@),
                    ..s
                }
                &&& a matches UpdateAction::ComputeWarnings { oid } && oid@ == s.to_push[
                    s.next
                ].1@
            },
            UpdateEvent::Warnings(w) => after_warnings(s, views(w@), t, a),
            UpdateEvent::Reapplied { oid, filter_id } => after_reapply(
                s,
                oid@,
                filter_id@,
                t,
                a,
            ),
            UpdateEvent::RewriteWritten => {
                &&& t == SessionView {
                    stage: Stage::Done,
                    resp: s.resp.push(s.rewrite_text),
                    ..s
                }
                &&& a matches UpdateAction::Finish(Ok(x)) && x@ == response_text(
                    s.resp.push(s.rewrite_text),
                )
            },
            UpdateEvent::Failed(_) => false,
        }
    }
}

impl UpdateSession {
    /// Takes in what happened to the last thing asked, and asks for the
    /// next. A failed step ends the session with its report.
    pub fn step(&mut self, event: UpdateEvent) -> (a: UpdateAction)
        requires
            old(self).wf(),
        ensures
            steps_to(old(self)@, event, final(self)@, a),
            final(self).wf(),
    {
        if let UpdateEvent::Failed(m) = &event {
            if self.stage != Stage::Done {
                let m = copy_str(m.as_str());
                return self.fail(ProxyError::Outside(m));
            }
        }
        match event {
            UpdateEvent::Opened => {
                if self.stage != Stage::AwaitOpen {
                    return self.fail(ProxyError::UnexpectedEvent);
                }
                match Oid::parse(self.old_text.as_str()) {
                    Err(e) => self.fail(e),
                    Ok(o) => {
                        self.old = o;
                        if self.old.is_zero() {
                            self.stage = Stage::AwaitRevision;
                            let mut rev = concat3(
                                "refs/namespaces/",
                                self.git_ns.as_str(),
                                "/",
                            );
                            rev.append(self.baseref.as_str());
                            UpdateAction::ResolveRevision { rev }
                        } else {
                            self.request_target()
                        }
                    },
                }
            },
            UpdateEvent::RevisionResolved(r) => {
                if self.stage != Stage::AwaitRevision {
                    return self.fail(ProxyError::UnexpectedEvent);
                }
                match r {
                    Some(o) => {
                        self.old = o;
                    },
                    None => {},
                }
                self.request_target()
            },
            UpdateEvent::BranchChecked(exists) => {
                if self.stage != Stage::AwaitBranchCheck {
                    return self.fail(ProxyError::UnexpectedEvent);
                }
                let base = match self.options.get("base") {
                    Some(b) => b,
                    None => String::new(),
                };
                let name = if exists {
                    concat2("refs/heads/", base.as_str())
                } else {
                    base
                };
                self.target_name = copy_str(name.as_str());
                self.stage = Stage::AwaitTarget;
                UpdateAction::ResolveTarget { name }
            },
            UpdateEvent::TargetResolved(r) => {
                if self.stage != Stage::AwaitTarget {
                    return self.fail(ProxyError::UnexpectedEvent);
                }
                match r {
                    None => {
                        let b = copy_str(self.baseref.as_str());
                        self.fail(ProxyError::TargetMissing(b))
                    },
                    Some(x) => {
                        self.target = x;
                        self.stage = Stage::AwaitFilter;
                        UpdateAction::ParseFilter { spec: copy_str(self.filter_spec.as_str()) }
                    },
                }
            },
            UpdateEvent::FilterParsed => {
                if self.stage != Stage::AwaitFilter {
                    return self.fail(ProxyError::UnexpectedEvent);
                }
                match Oid::parse(self.new_text.as_str()) {
                    Err(e) => self.fail(e),
                    Ok(n) => {
                        self.new_oid = n;
                        self.stage = Stage::AwaitUnapply;
                        let reparent_orphans = if self.options.contains_key("create") {
                            Some(self.target.clone())
                        } else {
                            None
                        };
                        UpdateAction::Unapply {
                            original_target: self.target.clone(),
                            old: self.old.clone(),
                            new: self.new_oid.clone(),
                            merge: self.options.contains_key("merge"),
                            reparent_orphans,
                            collect_changes: self.stacked_flag && self.for_review,
                        }
                    },
                }
            },
            UpdateEvent::Unapplied { result, changes } => {
                if self.stage != Stage::AwaitUnapply {
                    return self.fail(ProxyError::UnexpectedEvent);
                }
                match result {
                    UnapplyResult::Done(b) => {
                        self.changes = changes;
                        if self.options.contains_key("merge") {
                            self.stage = Stage::AwaitMerge;
                            UpdateAction::Merge {
                                target_name: copy_str(self.target_name.as_str()),
                                commit: b,
                                message: concat2("Merge from ", self.filter_spec.as_str()),
                            }
                        } else {
                            self.start_pushing(b)
                        }
                    },
                    UnapplyResult::BranchDoesNotExist => self.fail(ProxyError::BranchDoesNotExist),
                    UnapplyResult::RejectMerge(m) => self.fail(ProxyError::RejectMerge(m)),
                    UnapplyResult::RejectAmend(m) => self.fail(ProxyError::RejectAmend(m)),
                }
            },
            UpdateEvent::Merged(r) => {
                if self.stage != Stage::AwaitMerge {
                    return self.fail(ProxyError::UnexpectedEvent);
                }
                match r {
                    None => self.fail(ProxyError::MergeFailed),
                    Some(o) => self.start_pushing(o),
                }
            },
            UpdateEvent::Pushed { text, status } => {
                if self.stage != Stage::AwaitPush {
                    return self.fail(ProxyError::UnexpectedEvent);
                }
                if status != 0 {
                    return self.fail(ProxyError::PushFailed(text));
                }
                let ghost before = views(self.resp@);
                let ghost tv = text@;
                self.resp.push(text);
                assert(views(self.resp@) =~= before.push(tv));
                self.stage = Stage::AwaitWarnings;
                UpdateAction::ComputeWarnings { oid: self.to_push[self.next].1.clone() }
            },
            UpdateEvent::Warnings(w) => {
                if self.stage != Stage::AwaitWarnings {
                    return self.fail(ProxyError::UnexpectedEvent);
                }
                let ghost before = views(self.resp@);
                if w.len() > 0 {
                    self.resp.push(copy_str("warnings:"));
                    let mut w = w;
                    let ghost wv = views(w@);
                    self.resp.append(&mut w);
                    assert(views(self.resp@) =~= before.push("warnings:"@) + wv);
                }
                assert(self.next < self.to_push@.len());
                let n = self.to_push.len();
                assert(self.next < n);
                self.next = self.next + 1;
                if self.next < self.to_push.len() {
                    self.stage = Stage::AwaitPush;
                    self.push_next()
                } else {
                    self.stage = Stage::AwaitReapply;
                    UpdateAction::Reapply { oid: self.oid_to_push.clone() }
                }
            },
            UpdateEvent::Reapplied { oid, filter_id } => {
                if self.stage != Stage::AwaitReapply {
                    return self.fail(ProxyError::UnexpectedEvent);
                }
                if !oid.same_as(&self.new_oid) {
                    let mut line = concat3("REWRITE(", self.new_oid.as_str(), " -> ");
                    line.append(oid.as_str());
                    line.append(")");
                    self.rewrite_text = line;
                    let mut name = concat3(
                        "refs/josh/rewrites/",
                        self.base_ns.as_str(),
                        "/",
                    );
                    name.append(filter_id.as_str());
                    name.append("/r_");
                    name.append(oid.as_str());
                    self.stage = Stage::AwaitRewrite;
                    UpdateAction::WriteRewrite { name, oid }
                } else {
                    self.stage = Stage::Done;
                    UpdateAction::Finish(Ok(join_exec(&self.resp, "\n")))
                }
            },
            UpdateEvent::RewriteWritten => {
                if self.stage != Stage::AwaitRewrite {
                    return self.fail(ProxyError::UnexpectedEvent);
                }
                let line = copy_str(self.rewrite_text.as_str());
                let ghost before = views(self.resp@);
                self.resp.push(line);
                assert(views(self.resp@) =~= before.push(self.rewrite_text@));
                self.stage = Stage::Done;
                UpdateAction::Finish(Ok(join_exec(&self.resp, "\n")))
            },
            UpdateEvent::Failed(_) => self.fail(ProxyError::UnexpectedEvent),
        }
    }
}

/// The session answers `Finish` exactly when it is over, and once over it
/// stays over, answering every further event with an error.
pub proof fn lemma_finish_exactly_when_done(
    s: SessionView,
    e: UpdateEvent,
    t: SessionView,
    a: UpdateAction,
)
    requires
        steps_to(s, e, t, a),
    ensures
        (a is Finish) == (t.stage == Stage::Done),
        s.stage == Stage::Done ==> t == s && (a matches UpdateAction::Finish(Err(err))
            && err is UnexpectedEvent),
{
}

/// A push that is not a stack of changes goes upstream under the very
/// name that the client pushed to, options included.
pub proof fn lemma_plain_push_keeps_pushed_name(refname: Seq<char>, t: SessionView)
    requires
        t.push_to == push_target(refname),
        t.opts == push_option_list(refname),
        planned_pushes(t),
        !is_stacked(t),
    ensures
        t.to_push[0].0@ == refname,
{
    crate::refs::lemma_refname_round_trip(refname);
}

/// In a stacked push every pushed reference is different: the stack goes
/// under `refs/heads/@heads/` and each change under a reference of its
/// own below `refs/heads/@changes/`.
pub proof fn lemma_stacked_pushes_distinct(t: SessionView)
    requires
        is_stacked(t),
        planned_pushes(t),
        !stack_refused(t),
    ensures
        forall|i: int, j: int|
            0 <= i < j < t.to_push.len() ==> t.to_push[i].0@ != t.to_push[j].0@,
{
    let author = author_option(t.options);
    let kept = authored_by(t.changes, author);
    let rest = t.to_push.skip(1);
    crate::changes::lemma_change_refs_distinct(rest, kept, t.baseref, author);
    reveal_strlit("refs/heads/@heads/");
    reveal_strlit("refs/heads/@changes/");
    assert forall|i: int, j: int| 0 <= i < j < t.to_push.len() implies t.to_push[i].0@
        != t.to_push[j].0@ by {
        if i == 0 {
            let h = t.to_push[0].0@;
            let c = t.to_push[j].0@;
            assert(rest[j - 1] == t.to_push[j]);
            assert(h == heads_ref(t.baseref, author));
            assert(c == crate::changes::change_ref(t.baseref, author, rest[j - 1].2@));
            assert(h[12] == 'h');
            assert(c[12] == 'c');
        } else {
            assert(rest[i - 1] == t.to_push[i]);
            assert(rest[j - 1] == t.to_push[j]);
        }
    }
}

/// A push whose target does not start with `refs/for` is never handled as
/// a stack of changes, whatever the stacked flag says: it is pushed once,
/// to the very name the client pushed to (options included), as
/// `JOSH_PUSH` and without force.
pub proof fn lemma_plain_push_goes_to_pushed_name(
    s: SessionView,
    oid: Seq<char>,
    t: SessionView,
    a: UpdateAction,
    refname: Seq<char>,
)
    requires
        s.push_to == push_target(refname),
        s.opts == push_option_list(refname),
        s.for_review == is_review_push(refname),
        !has_prefix(push_target(refname), "refs/for"@),
        starts_pushing(s, oid, t, a),
    ensures
        t.stage == Stage::AwaitPush,
        t.to_push.len() == 1,
        t.next == 0,
        a matches UpdateAction::Push { refname: n, oid: o, display_name, force } && n@ == refname
            && o@ == oid && display_name@ == "JOSH_PUSH"@ && !force,
{
    lemma_refname_round_trip(refname);
}

/// The filter is asked to collect changes exactly for a review push made
/// with stacked changes on; never for a push to any other target.
pub proof fn lemma_changes_collected_only_for_stacked_review(
    s: SessionView,
    t: SessionView,
    a: UpdateAction,
)
    requires
        s.stage == Stage::AwaitFilter,
        parses_as_oid(s.new_text),
        steps_to(s, UpdateEvent::FilterParsed, t, a),
    ensures
        a matches UpdateAction::Unapply { collect_changes, .. } && collect_changes == (
        s.stacked_flag && s.for_review),
{
}

/// Once the pushed history of a plain push is filtered back without the
/// `merge` option, the result is pushed to the name the client pushed to,
/// as `JOSH_PUSH` and without force, whatever the stacked flag says.
pub proof fn lemma_plain_push_after_unapply(
    s: SessionView,
    e: UpdateEvent,
    t: SessionView,
    a: UpdateAction,
    refname: Seq<char>,
)
    requires
        s.stage == Stage::AwaitUnapply,
        s.push_to == push_target(refname),
        s.opts == push_option_list(refname),
        s.for_review == is_review_push(refname),
        !has_prefix(push_target(refname), "refs/for"@),
        !s.options.contains_key("merge"@),
        e matches UpdateEvent::Unapplied { result, changes } && result is Done,
        steps_to(s, e, t, a),
    ensures
        e matches UpdateEvent::Unapplied { result, changes } && (result matches UnapplyResult::Done(
            b,
        ) && a matches UpdateAction::Push { refname: n, oid: o, display_name, force } && n@
            == refname && o@ == b@ && display_name@ == "JOSH_PUSH"@ && !force),
{
    match e {
        UpdateEvent::Unapplied { result, changes } => match result {
            UnapplyResult::Done(b) => {
                let s1 = SessionView { changes: change_views(changes@), ..s };
                lemma_plain_push_goes_to_pushed_name(s1, b@, t, a, refname);
            },
            _ => {},
        },
        _ => {},
    }
}

} // verus!
