//! Stacked changes: each commit of a review push that carries a Change-Id
//! is pushed to a reference of its own.

use vstd::prelude::*;

use crate::error::ProxyError;
use crate::oid::Oid;
use crate::text::{
    chars_of, concat2, contains_seq, copy_str, first_index_exec, has_char, replace_first,
    replace_first_exec, str_has_char,
};

verus! {

/// A commit found while a review push was filtered back, with its author
/// and its Change-Id, when it has one.
pub struct Change {
    pub author: String,
    pub id: Option<String>,
    pub commit: Oid,
}

/// The view of a [`Change`].
pub struct ChangeView {
    pub author: Seq<char>,
    pub id: Option<Seq<char>>,
    pub commit: Seq<char>,
}

/// The view of an optional string.
pub open spec fn opt_view(o: Option<String>) -> Option<Seq<char>> {
    match o {
        Some(s) => Some(s@),
        None => None,
    }
}

impl View for Change {
    type V = ChangeView;

    open spec fn view(&self) -> ChangeView {
        ChangeView { author: self.author@, id: opt_view(self.id), commit: self.commit@ }
    }
}

impl Clone for Change {
    fn clone(&self) -> (c: Change)
        ensures
            c@ == self@,
    {
        let id = match &self.id {
            Some(s) => Some(s.clone()),
            None => None,
        };
        Change { author: self.author.clone(), id, commit: self.commit.clone() }
    }
}

/// The views of a sequence of changes.
pub open spec fn change_views(v: Seq<Change>) -> Seq<ChangeView> {
    v.map_values(|c: Change| c@)
}

/// The changes made by `author`, in their order.
pub open spec fn authored_by(changes: Seq<ChangeView>, author: Seq<char>) -> Seq<ChangeView>
    decreases changes.len(),
{
    if changes.len() == 0 {
        Seq::<ChangeView>::empty()
    } else {
        let rest = authored_by(changes.drop_last(), author);
        if changes.last().author == author {
            rest.push(changes.last())
        } else {
            rest
        }
    }
}

/// Why a change cannot be pushed to a reference of its own.
pub enum ChangeFault {
    /// It has no Change-Id; the commit is given.
    Missing(Seq<char>),
    /// Its Change-Id holds `@`.
    HasAt,
    /// An earlier change has the same Change-Id; the commit is given.
    Duplicate(Seq<char>),
}

/// The fault of the `i`-th change, given the ones before it.
pub open spec fn fault_at(kept: Seq<ChangeView>, i: int) -> Option<ChangeFault> {
    match kept[i].id {
        None => Some(ChangeFault::Missing(kept[i].commit)),
        Some(id) => if has_char(id, '@') {
            Some(ChangeFault::HasAt)
        } else if exists|j: int| 0 <= j < i && kept[j].id == Some(id) {
            Some(ChangeFault::Duplicate(kept[i].commit))
        } else {
            None
        },
    }
}

/// The first fault among the first `n` changes.
pub open spec fn first_fault(kept: Seq<ChangeView>, n: int) -> Option<ChangeFault>
    decreases n,
{
    if n <= 0 {
        None
    } else {
        match first_fault(kept, n - 1) {
            Some(f) => Some(f),
            None => fault_at(kept, n - 1),
        }
    }
}

/// The branch part of a reference: `baseref` without its first
/// `refs/heads/`.
pub open spec fn branch_of(baseref: Seq<char>) -> Seq<char> {
    replace_first(baseref, "refs/heads/"@, ""@)
}

/// The reference that a change with Change-Id `id` is pushed to.
pub open spec fn change_ref(baseref: Seq<char>, author: Seq<char>, id: Seq<char>) -> Seq<char> {
    "refs/heads/@changes/"@ + branch_of(baseref) + "/"@ + author + "/"@ + id
}

/// The error that reports a fault.
pub open spec fn reports(e: ProxyError, f: ChangeFault) -> bool {
    match f {
        ChangeFault::Missing(c) => e matches ProxyError::MissingChangeId(o) && o@ == c,
        ChangeFault::HasAt => e is ChangeIdHasAt,
        ChangeFault::Duplicate(c) => e matches ProxyError::DuplicateChangeId(o) && o@ == c,
    }
}

/// The refs of the pushed changes match the changes one for one.
pub open spec fn refs_for_changes(
    out: Seq<(String, Oid, String)>,
    kept: Seq<ChangeView>,
    baseref: Seq<char>,
    author: Seq<char>,
) -> bool {
    &&& out.len() == kept.len()
    &&& forall|i: int|
        #![trigger out[i]]
        0 <= i < out.len() ==> {
            &&& kept[i].id == Some(out[i].2@)
            &&& out[i].0@ == change_ref(baseref, author, out[i].2@)
            &&& out[i].1@ == kept[i].commit
        }
}

/// `baseref` without its first `refs/heads/`.
pub fn branch_name(baseref: &str) -> (out: String)
    ensures
        out@ == branch_of(baseref@),
{
    replace_first_exec(baseref, "refs/heads/", "")
}

/// The references to push the changes of `change_author` to: one per
/// change, named after its Change-Id, in the order of the changes.
///
/// Changes of other authors are left out. The author must be an email
/// address, and every change must have a Change-Id without `@` that no
/// earlier change has.
pub fn change_ids_to_refs(baseref: String, change_author: String, change_ids: Vec<Change>) -> (r:
    Result<Vec<(String, Oid, String)>, ProxyError>)
    ensures
        ({
            let kept = authored_by(change_views(change_ids@), change_author@);
            if !has_char(change_author@, '@') {
                r matches Err(e) && e is AuthorNotEmail
            } else if first_fault(kept, kept.len() as int) is Some {
                r matches Err(e) && reports(e, first_fault(kept, kept.len() as int)->0)
            } else {
                r matches Ok(out) && refs_for_changes(out@, kept, baseref@, change_author@)
            }
        }),
{
    let ghost all = change_views(change_ids@);
    let mut kept: Vec<Change> = Vec::new();
    let mut i: usize = 0;
    while i < change_ids.len()
        invariant
            i <= change_ids@.len(),
            all == change_views(change_ids@),
            change_views(kept@) == authored_by(all.take(i as int), change_author@),
        decreases change_ids.len() - i,
    {
        assert(all.take(i + 1).drop_last() =~= all.take(i as int));
        assert(all.take(i + 1).last() == change_ids@[i as int]@);
        if change_ids[i].author == change_author {
            let c = change_ids[i].clone();
            kept.push(c);
            assert(change_views(kept@) =~= authored_by(all.take(i as int), change_author@).push(
                change_ids@[i as int]@,
            ));
        }
        i += 1;
    }
    assert(all.take(change_ids@.len() as int) =~= all);
    let ghost kv = change_views(kept@);
    if !str_has_char(change_author.as_str(), '@') {
        return Err(ProxyError::AuthorNotEmail);
    }
    let mut i: usize = 0;
    while i < kept.len()
        invariant
            i <= kept@.len(),
            kv == change_views(kept@),
            kv == authored_by(change_views(change_ids@), change_author@),
            has_char(change_author@, '@'),
            first_fault(kv, i as int) is None,
        decreases kept.len() - i,
    {
        match &kept[i].id {
            None => {
                proof {
                    lemma_first_fault_stable(kv, i + 1, kv.len() as int);
                }
                return Err(ProxyError::MissingChangeId(kept[i].commit.clone()));
            },
            Some(id) => {
                if str_has_char(id.as_str(), '@') {
                    proof {
                        lemma_first_fault_stable(kv, i + 1, kv.len() as int);
                    }
                    return Err(ProxyError::ChangeIdHasAt);
                }
                let mut j: usize = 0;
                while j < i
                    invariant
                        j <= i < kept@.len(),
                        kv == change_views(kept@),
                        kv == authored_by(change_views(change_ids@), change_author@),
                        has_char(change_author@, '@'),
                        first_fault(kv, i as int) is None,
                        !has_char(id@, '@'),
                        kv[i as int].id == Some(id@),
                        forall|k: int| 0 <= k < j ==> kv[k].id != Some(id@),
                    decreases i - j,
                {
                    let same = match &kept[j].id {
                        Some(other) => *other == *id,
                        None => false,
                    };
                    if same {
                        assert(kv[j as int].id == Some(id@));
                        proof {
                            lemma_first_fault_stable(kv, i + 1, kv.len() as int);
                        }
                        return Err(ProxyError::DuplicateChangeId(kept[i].commit.clone()));
                    }
                    j += 1;
                }
            },
        }
        i += 1;
    }
    let branch = branch_name(baseref.as_str());
    let mut out: Vec<(String, Oid, String)> = Vec::new();
    let mut i: usize = 0;
    while i < kept.len()
        invariant
            i <= kept@.len(),
            kv == change_views(kept@),
            first_fault(kv, kv.len() as int) is None,
            kv == authored_by(all, change_author@),
            all == change_views(change_ids@),
            has_char(change_author@, '@'),
            branch@ == branch_of(baseref@),
            out@.len() == i,
            forall|k: int|
                #![trigger out@[k]]
                0 <= k < i ==> {
                    &&& kv[k].id == Some(out@[k].2@)
                    &&& out@[k].0@ == change_ref(baseref@, change_author@, out@[k].2@)
                    &&& out@[k].1@ == kv[k].commit
                },
        decreases kept.len() - i,
    {
        proof {
            lemma_first_fault_prefix(kv, i as int, kv.len() as int);
            lemma_authored_by_author(all, change_author@, i as int);
        }
        assert(kv[i as int].id is Some);
        assert(kv[i as int].author == change_author@);
        let id = match &kept[i].id {
            Some(id) => id.clone(),
            None => String::new(),
        };
        assert(id@ == kv[i as int].id->0);
        let mut name = concat2("refs/heads/@changes/", branch.as_str());
        name.append("/");
        name.append(kept[i].author.as_str());
        name.append("/");
        name.append(id.as_str());
        assert(name@ == change_ref(baseref@, change_author@, kv[i as int].id->0));
        let commit = kept[i].commit.clone();
        let ghost old_out = out@;
        out.push((name, commit, id));
        assert(forall|k: int| 0 <= k < i ==> out@[k] == old_out[k]);
        assert(out@[i as int].0@ == change_ref(baseref@, change_author@, kv[i as int].id->0));
        assert(out@[i as int].1@ == kv[i as int].commit);
        assert(out@[i as int].2@ == kv[i as int].id->0);
        assert forall|k: int| #![trigger out@[k]] 0 <= k < i + 1 implies {
            &&& kv[k].id == Some(out@[k].2@)
            &&& out@[k].0@ == change_ref(baseref@, change_author@, out@[k].2@)
            &&& out@[k].1@ == kv[k].commit
        } by {
            if k < i {
                assert(out@[k] == old_out[k]);
            }
        }
        i += 1;
    }
    Ok(out)
}

/// When the first `m` changes have no fault, neither have the first `n <= m`,
/// and the `n`-th change has one.
proof fn lemma_first_fault_prefix(kept: Seq<ChangeView>, n: int, m: int)
    requires
        0 <= n < m,
        first_fault(kept, m) is None,
    ensures
        first_fault(kept, n) is None,
        fault_at(kept, n) is None,
    decreases m - n,
{
    if n + 1 < m {
        lemma_first_fault_prefix(kept, n + 1, m);
    }
}

/// Once a fault is found among the first `n` changes, it stays the first.
proof fn lemma_first_fault_stable(kept: Seq<ChangeView>, n: int, m: int)
    requires
        0 <= n <= m,
        first_fault(kept, n) is Some,
    ensures
        first_fault(kept, m) == first_fault(kept, n),
    decreases m - n,
{
    if n < m {
        lemma_first_fault_stable(kept, n, m - 1);
    }
}

/// Every change kept for `author` is by `author`.
proof fn lemma_authored_by_author(changes: Seq<ChangeView>, author: Seq<char>, i: int)
    requires
        0 <= i < authored_by(changes, author).len(),
    ensures
        authored_by(changes, author)[i].author == author,
    decreases changes.len(),
{
    if changes.len() > 0 {
        let rest = authored_by(changes.drop_last(), author);
        if i < rest.len() {
            lemma_authored_by_author(changes.drop_last(), author, i);
        }
    }
}

/// In a stacked push that is accepted, every change gets a reference of its
/// own, and no Change-Id holds `@`.
pub proof fn lemma_change_refs_distinct(
    out: Seq<(String, Oid, String)>,
    kept: Seq<ChangeView>,
    baseref: Seq<char>,
    author: Seq<char>,
)
    requires
        refs_for_changes(out, kept, baseref, author),
        first_fault(kept, kept.len() as int) is None,
    ensures
        forall|i: int, j: int| 0 <= i < j < out.len() ==> out[i].0@ != out[j].0@,
        forall|i: int| 0 <= i < out.len() ==> !has_char(#[trigger] out[i].2@, '@'),
{
    assert forall|i: int, j: int| 0 <= i < j < out.len() implies out[i].0@ != out[j].0@ by {
        lemma_first_fault_prefix(kept, j, kept.len() as int);
        assert(kept[i].id == Some(out[i].2@));
        assert(kept[j].id == Some(out[j].2@));
        let p = "refs/heads/@changes/"@ + branch_of(baseref) + "/"@ + author + "/"@;
        assert(out[i].0@ =~= p + out[i].2@);
        assert(out[j].0@ =~= p + out[j].2@);
        if out[i].0@ == out[j].0@ {
            assert((p + out[i].2@).skip(p.len() as int) =~= out[i].2@);
            assert((p + out[j].2@).skip(p.len() as int) =~= out[j].2@);
        }
    }
    assert forall|i: int| 0 <= i < out.len() implies !has_char(#[trigger] out[i].2@, '@') by {
        lemma_first_fault_prefix(kept, i, kept.len() as int);
        assert(kept[i].id == Some(out[i].2@));
    }
}

} // verus!
