//! The errors of the library and the text that reports them.

use vstd::prelude::*;

use crate::oid::Oid;
use crate::text::{
    concat2, concat3, copy_str, has_prefix, lemma_split_at_sep, lemma_split_without_sep, split_on,
};

verus! {

/// `serde_json::Error`, the error of a JSON parse.
#[verifier::external_type_specification]
#[verifier::external_body]
pub struct ExJsonError(serde_json::Error);

/// The `Debug` text of a string: the string in double quotes, with
/// escapes.
pub uninterp spec fn debug_text(s: Seq<char>) -> Seq<char>;

/// The number of spaces and tabs that `line` begins with.
pub open spec fn leading_blanks(line: Seq<char>) -> nat
    decreases line.len(),
{
    if line.len() == 0 || !(line[0] == ' ' || line[0] == '\t') {
        0
    } else {
        1 + leading_blanks(line.skip(1))
    }
}

/// The indentation that the non-blank lines of `lines` share: the least
/// number of leading spaces and tabs among the lines that hold anything
/// else, or nothing when no line does.
pub open spec fn common_indent(lines: Seq<Seq<char>>) -> Option<nat>
    decreases lines.len(),
{
    if lines.len() == 0 {
        None
    } else {
        let rest = common_indent(lines.drop_last());
        let n = leading_blanks(lines.last());
        if n == lines.last().len() {
            rest
        } else {
            match rest {
                None => Some(n),
                Some(m) => Some(if n < m { n } else { m }),
            }
        }
    }
}

/// The lines of `s` as `unindent` reads them: a leading `\r\n` loses its
/// `\r`, then the text is split at every `\n`.
pub open spec fn unindent_lines(s: Seq<char>) -> Seq<Seq<char>> {
    split_on(if has_prefix(s, "\r\n"@) { s.skip(1) } else { s }, '\n')
}

/// A later line with its first `n` characters removed; a line no longer
/// than that (a blank one) becomes empty.
pub open spec fn dedent_line(line: Seq<char>, n: nat) -> Seq<char> {
    if line.len() > n {
        line.skip(n as int)
    } else {
        Seq::<char>::empty()
    }
}

/// The first line as it is, then each later line dedented by `n`, joined
/// by `\n`; no `\n` comes before the second line when `skip_first` holds.
pub open spec fn join_dedented(lines: Seq<Seq<char>>, n: nat, skip_first: bool) -> Seq<char>
    decreases lines.len(),
{
    if lines.len() == 0 {
        Seq::<char>::empty()
    } else if lines.len() == 1 {
        lines[0]
    } else {
        let sep = if lines.len() == 2 && skip_first {
            Seq::<char>::empty()
        } else {
            "\n"@
        };
        join_dedented(lines.drop_last(), n, skip_first) + sep + dedent_line(lines.last(), n)
    }
}

/// The text with its common indentation removed, as `unindent::unindent`
/// gives it: a text that begins with a line break loses it; from every
/// line after the first, the indentation shared by the non-blank ones among
/// them is removed.
pub open spec fn unindented(s: Seq<char>) -> Seq<char> {
    let lines = unindent_lines(s);
    let n = match common_indent(lines.skip(1)) {
        Some(m) => m,
        None => 0,
    };
    join_dedented(lines, n, has_prefix(s, "\n"@) || has_prefix(s, "\r\n"@))
}

/// `format!("{:?}", s)` for a string slice.
///
/// The contract names the result and states one fact of it: it holds no
/// line break, which `Debug` writes as the escape `\n`. The other
/// escaping rules of `Debug` for `str` are not restated here.
#[verifier::external_body]
fn debug_quoted(s: &str) -> (r: String)
    ensures
        r@ == debug_text(s@),
        forall|j: int| 0 <= j < r@.len() ==> r@[j] != '\n',
{
    format!("{:?}", s)
}

/// `unindent::unindent`: the crate drops a leading line break and removes
/// from every later line the spaces and tabs that all non-blank later
/// lines share, as [`unindented`] states.
#[verifier::external_body]
fn unindent_text(s: &str) -> (r: String)
    ensures
        r@ == unindented(s@),
{
    unindent::unindent(s)
}

/// `git2::Error`'s `Display` text.
///
/// Nothing is stated of it: the text comes from libgit2.
#[verifier::external_body]
fn git_error_text(e: &git2::Error) -> String {
    e.to_string()
}

/// `serde_json::Error`'s `Display` text.
///
/// Nothing is stated of it: the text describes where the parse failed.
#[verifier::external_body]
fn json_error_text(e: &serde_json::Error) -> String {
    e.to_string()
}

/// What can go wrong while a push through the proxy is processed.
#[derive(Debug)]
pub enum ProxyError {
    /// Text that should name a commit is no object id.
    BadOid(git2::Error),
    /// The stored push options are not a JSON object of strings.
    BadPushOptions(serde_json::Error),
    /// The push option `author` is no email address.
    AuthorNotEmail,
    /// A Change-Id holds `@`.
    ChangeIdHasAt,
    /// Two changes share a Change-Id; the commit is the later one.
    DuplicateChangeId(Oid),
    /// The commit has no Change-Id.
    MissingChangeId(Oid),
    /// The reference that the push goes to does not exist upstream.
    TargetMissing(String),
    /// The branch does not exist upstream.
    BranchDoesNotExist,
    /// Reverse filtering refused a merge; the text says why.
    RejectMerge(String),
    /// Reverse filtering refused to amend with conflicting changes.
    RejectAmend(String),
    /// The `merge` push option was given, but the target could not be merged.
    MergeFailed,
    /// `git push` failed; the text is its rewritten error output.
    PushFailed(String),
    /// `git fetch` reported an error; the text is its error output.
    FetchFailed(String),
    /// An outside step failed; the text is its report.
    Outside(String),
    /// A step reported something other than what was asked of it.
    UnexpectedEvent,
}

/// The text of the report for a missing target reference, before it is
/// unindented.
pub open spec fn target_missing_template(quoted: Seq<char>) -> Seq<char> {
    "\n                    Reference "@ + quoted
        + " does not exist on remote.\n                    If you want to create it, pass \"-o base=<basebranch>\" or \"-o base=path/to/ref\"\n                    to specify a base branch/reference.\n                    "@
}

/// The report for a missing target reference, once unindented, after
/// the quoted reference name.
pub open spec fn target_missing_tail() -> Seq<char> {
    " does not exist on remote.\nIf you want to create it, pass \"-o base=<basebranch>\" or \"-o base=path/to/ref\"\nto specify a base branch/reference.\n"@
}

/// Spaces and tabs in front of a text add to its leading blanks.
proof fn lemma_leading_blanks_prefix(p: Seq<char>, x: Seq<char>)
    requires
        forall|j: int| 0 <= j < p.len() ==> p[j] == ' ' || p[j] == '\t',
    ensures
        leading_blanks(p + x) == p.len() + leading_blanks(x),
    decreases p.len(),
{
    if p.len() == 0 {
        assert(p + x =~= x);
    } else {
        assert((p + x).skip(1) =~= p.skip(1) + x);
        lemma_leading_blanks_prefix(p.skip(1), x);
    }
}

/// Unindenting the report for a missing target reference leaves each of
/// its lines without the indentation, and no line break in front.
pub proof fn lemma_target_missing_text(q: Seq<char>)
    requires
        forall|j: int| 0 <= j < q.len() ==> q[j] != '\n',
    ensures
        unindented(target_missing_template(q)) == "Reference "@ + q + target_missing_tail(),
{
    reveal_strlit("\n                    Reference ");
    reveal_strlit(
        " does not exist on remote.\n                    If you want to create it, pass \"-o base=<basebranch>\" or \"-o base=path/to/ref\"\n                    to specify a base branch/reference.\n                    ",
    );
    reveal_strlit(
        " does not exist on remote.\nIf you want to create it, pass \"-o base=<basebranch>\" or \"-o base=path/to/ref\"\nto specify a base branch/reference.\n",
    );
    reveal_strlit("                    ");
    reveal_strlit("Reference ");
    reveal_strlit(" does not exist on remote.");
    reveal_strlit("If you want to create it, pass \"-o base=<basebranch>\" or \"-o base=path/to/ref\"");
    reveal_strlit("to specify a base branch/reference.");
    reveal_strlit("\n");
    reveal_strlit("\r\n");
    let b = "                    "@;
    let nl = "\n"@;
    let r0 = "Reference "@;
    let r1 = " does not exist on remote."@;
    let t2 = "If you want to create it, pass \"-o base=<basebranch>\" or \"-o base=path/to/ref\""@;
    let t3 = "to specify a base branch/reference."@;
    let l1 = b + r0 + q + r1;
    let l2 = b + t2;
    let l3 = b + t3;
    let e = Seq::<char>::empty();
    let t = target_missing_template(q);
    assert("\n                    Reference "@ =~= nl + b + r0);
    assert(" does not exist on remote.\n                    If you want to create it, pass \"-o base=<basebranch>\" or \"-o base=path/to/ref\"\n                    to specify a base branch/reference.\n                    "@
        =~= r1 + nl + l2 + nl + l3 + nl + b);
    assert(target_missing_tail() =~= r1 + nl + t2 + nl + t3 + nl);
    assert(nl =~= seq!['\n']);
    assert(t =~= e + seq!['\n'] + (l1 + seq!['\n'] + (l2 + seq!['\n'] + (l3 + seq!['\n'] + b))));
    // The lines.
    assert forall|j: int| 0 <= j < l1.len() implies l1[j] != '\n' by {
        if j >= b.len() + r0.len() && j < b.len() + r0.len() + q.len() {
            assert(l1[j] == q[j - b.len() - r0.len()]);
        }
    }
    lemma_split_without_sep(e, '\n');
    lemma_split_without_sep(l1, '\n');
    lemma_split_without_sep(l2, '\n');
    lemma_split_without_sep(l3, '\n');
    lemma_split_without_sep(b, '\n');
    lemma_split_at_sep(l3, b, '\n');
    lemma_split_at_sep(l2, l3 + seq!['\n'] + b, '\n');
    lemma_split_at_sep(l1, l2 + seq!['\n'] + (l3 + seq!['\n'] + b), '\n');
    lemma_split_at_sep(e, l1 + seq!['\n'] + (l2 + seq!['\n'] + (l3 + seq!['\n'] + b)), '\n');
    assert(!has_prefix(t, "\r\n"@)) by {
        assert(t.take(2)[0] == '\n');
    }
    assert(has_prefix(t, "\n"@)) by {
        assert(t.take(1) =~= "\n"@);
    }
    let lines = unindent_lines(t);
    assert(lines =~= seq![e, l1, l2, l3, b]);
    // The shared indentation is that of the blanks in front.
    lemma_leading_blanks_prefix(b, r0 + q + r1);
    lemma_leading_blanks_prefix(b, t2);
    lemma_leading_blanks_prefix(b, t3);
    lemma_leading_blanks_prefix(b, e);
    assert(b + (r0 + q + r1) =~= l1);
    assert(b + e =~= b);
    assert(leading_blanks(r0 + q + r1) == 0);
    assert(leading_blanks(t2) == 0);
    assert(leading_blanks(t3) == 0);
    assert(leading_blanks(e) == 0);
    let rest = lines.skip(1);
    assert(rest =~= seq![l1, l2, l3, b]);
    assert(rest.drop_last() =~= seq![l1, l2, l3]);
    assert(seq![l1, l2, l3].drop_last() =~= seq![l1, l2]);
    assert(seq![l1, l2].drop_last() =~= seq![l1]);
    assert(seq![l1].drop_last() =~= Seq::<Seq<char>>::empty());
    assert(b.len() == 20);
    assert(l1.len() > 20 && l2.len() > 20 && l3.len() > 20);
    assert(leading_blanks(l1) == 20);
    assert(seq![l1].last() == l1);
    assert(common_indent(Seq::<Seq<char>>::empty()) == None::<nat>);
    assert(common_indent(seq![l1]) == Some(20nat));
    assert(common_indent(seq![l1, l2]) == Some(20nat));
    assert(common_indent(seq![l1, l2, l3]) == Some(20nat));
    assert(common_indent(rest) == Some(20nat));
    // Joining the dedented lines.
    assert(lines.drop_last() =~= seq![e, l1, l2, l3]);
    assert(seq![e, l1, l2, l3].drop_last() =~= seq![e, l1, l2]);
    assert(seq![e, l1, l2].drop_last() =~= seq![e, l1]);
    assert(seq![e, l1].drop_last() =~= seq![e]);
    assert(dedent_line(l1, 20) =~= r0 + q + r1);
    assert(dedent_line(l2, 20) =~= t2);
    assert(dedent_line(l3, 20) =~= t3);
    assert(dedent_line(b, 20) =~= e);
    assert(join_dedented(seq![e], 20, true) == e);
    assert(seq![e, l1].last() == l1);
    assert(join_dedented(seq![e, l1], 20, true) == e + e + dedent_line(l1, 20));
    assert(join_dedented(seq![e, l1], 20, true) =~= r0 + q + r1);
    assert(join_dedented(seq![e, l1, l2], 20, true) =~= r0 + q + r1 + nl + t2);
    assert(join_dedented(seq![e, l1, l2, l3], 20, true) =~= r0 + q + r1 + nl + t2 + nl + t3);
    assert(join_dedented(lines, 20, true) =~= r0 + q + r1 + nl + t2 + nl + t3 + nl);
    assert(r0 + q + r1 + nl + t2 + nl + t3 + nl =~= r0 + q + target_missing_tail());
}

impl ProxyError {
    /// The text that reports the error.
    pub fn message(&self) -> (m: String)
        ensures
            self is AuthorNotEmail ==> m@
                == "Push option 'author' needs to be set to a valid email address"@,
            self is ChangeIdHasAt ==> m@ == "Change-Id must not contain '@'"@,
            self matches ProxyError::DuplicateChangeId(c) ==> m@ == "rejecting to push "@ + c@
                + " with duplicate Change-Id"@,
            self matches ProxyError::MissingChangeId(c) ==> m@ == "rejecting to push "@ + c@
                + " without Change-Id"@,
            self matches ProxyError::TargetMissing(b) ==> m@ == "Reference "@ + debug_text(b@)
                + target_missing_tail(),
            self is BranchDoesNotExist ==> m@ == "branch does not exist on remote"@,
            self matches ProxyError::RejectMerge(t) ==> m@ == t@,
            self matches ProxyError::RejectAmend(t) ==> m@ == "rejecting to amend "@ + debug_text(
                t@,
            ) + " with conflicting changes"@,
            self is MergeFailed ==> m@ == "josh_merge failed"@,
            self matches ProxyError::PushFailed(t) ==> m@ == t@,
            self matches ProxyError::FetchFailed(t) ==> m@ == "git error: "@ + debug_text(t@),
            self matches ProxyError::Outside(t) ==> m@ == t@,
            self is UnexpectedEvent ==> m@ == "unexpected event"@,
    {
        match self {
            ProxyError::BadOid(e) => git_error_text(e),
            ProxyError::BadPushOptions(e) => json_error_text(e),
            ProxyError::AuthorNotEmail => copy_str(
                "Push option 'author' needs to be set to a valid email address",
            ),
            ProxyError::ChangeIdHasAt => copy_str("Change-Id must not contain '@'"),
            ProxyError::DuplicateChangeId(c) => concat3(
                "rejecting to push ",
                c.as_str(),
                " with duplicate Change-Id",
            ),
            ProxyError::MissingChangeId(c) => concat3(
                "rejecting to push ",
                c.as_str(),
                " without Change-Id",
            ),
            ProxyError::TargetMissing(b) => {
                let quoted = debug_quoted(b.as_str());
                let text = concat3(
                    "\n                    Reference ",
                    quoted.as_str(),
                    " does not exist on remote.\n                    If you want to create it, pass \"-o base=<basebranch>\" or \"-o base=path/to/ref\"\n                    to specify a base branch/reference.\n                    ",
                );
                proof {
                    lemma_target_missing_text(quoted@);
                }
                unindent_text(text.as_str())
            },
            ProxyError::BranchDoesNotExist => copy_str("branch does not exist on remote"),
            ProxyError::RejectMerge(t) => copy_str(t.as_str()),
            ProxyError::RejectAmend(t) => {
                let quoted = debug_quoted(t.as_str());
                concat3("rejecting to amend ", quoted.as_str(), " with conflicting changes")
            },
            ProxyError::MergeFailed => copy_str("josh_merge failed"),
            ProxyError::PushFailed(t) => copy_str(t.as_str()),
            ProxyError::FetchFailed(t) => {
                let quoted = debug_quoted(t.as_str());
                concat2("git error: ", quoted.as_str())
            },
            ProxyError::Outside(t) => copy_str(t.as_str()),
            ProxyError::UnexpectedEvent => copy_str("unexpected event"),
        }
    }
}

} // verus!
