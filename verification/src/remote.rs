//! The git commands that talk to the upstream remote, and how their output
//! is read.

use vstd::prelude::*;

use crate::error::ProxyError;
use crate::text::{
    concat2, concat3, contains_seq, copy_str, occurs_at, first_line, first_line_exec, join, join_exec,
    replace_all, replace_all_exec, replace_first, replace_first_exec, str_contains, trim_char,
    trim_char_exec, views,
};

verus! {

// ---------------------------------------------------------------------------
// Pushing
// ---------------------------------------------------------------------------

/// The temporary reference that holds the commit while it is pushed.
pub open spec fn push_head_ref(namespace: Seq<char>) -> Seq<char> {
    "refs/"@ + namespace
}

/// The refspec that pushes the temporary reference to `refname`.
pub open spec fn push_refspec(namespace: Seq<char>, refname: Seq<char>) -> Seq<char> {
    push_head_ref(namespace) + ":"@ + refname
}

/// The `git push` command line.
pub open spec fn push_command_text(
    url: Seq<char>,
    namespace: Seq<char>,
    refname: Seq<char>,
    force: bool,
) -> Seq<char> {
    "git push "@ + (if force {
        "-f"@
    } else {
        ""@
    }) + " "@ + url + " '"@ + push_refspec(namespace, refname) + "'"@
}

/// What `git push` is asked to do: the temporary reference to create and
/// the command to run.
pub struct PushHeadPlan {
    pub head_ref: String,
    pub command: String,
}

/// Plans the push of a commit to `refname` on the remote at `url`, through
/// the temporary reference `refs/<namespace>`; `force` adds `-f`.
pub fn push_head_plan(refname: &str, url: &str, namespace: &str, force: bool) -> (p: PushHeadPlan)
    ensures
        p.head_ref@ == push_head_ref(namespace@),
        p.command@ == push_command_text(url@, namespace@, refname@, force),
{
    let head_ref = concat2("refs/", namespace);
    let spec = concat3(head_ref.as_str(), ":", refname);
    let mut command = copy_str("git push ");
    if force {
        command.append("-f");
    } else {
        command.append("");
    }
    command.append(" ");
    command.append(url);
    command.append(" '");
    command.append(spec.as_str());
    command.append("'");
    PushHeadPlan { head_ref, command }
}

/// What `git push` reported, with the temporary reference replaced by
/// `display_name` in its error output, and its exit status.
pub fn push_head_outcome(stderr: &str, status: i32, namespace: &str, display_name: &str) -> (r: (
    String,
    i32,
))
    ensures
        r.0@ == replace_all(stderr@, push_head_ref(namespace@), display_name@),
        r.1 == status,
{
    let head_ref = concat2("refs/", namespace);
    proof {
        reveal_strlit("refs/");
        assert(head_ref@.len() > 0);
    }
    (replace_all_exec(stderr, head_ref.as_str(), display_name), status)
}

/// When the display name is the temporary reference itself, the output
/// is kept as it is.
pub proof fn lemma_replace_same(s: Seq<char>, pat: Seq<char>, i: int)
    requires
        pat.len() > 0,
        0 <= i <= s.len(),
    ensures
        crate::text::replace_all_from(s, pat, pat, i) == s.skip(i),
    decreases s.len() - i,
{
    if i < s.len() {
        if crate::text::occurs_at(s, pat, i) {
            lemma_replace_same(s, pat, i + pat.len());
            assert(s.skip(i) =~= s.subrange(i, i + pat.len()) + s.skip(i + pat.len()));
        } else {
            lemma_replace_same(s, pat, i + 1);
            assert(s.skip(i) =~= seq![s[i]] + s.skip(i + 1));
        }
    } else {
        assert(s.skip(i) =~= Seq::<char>::empty());
    }
}

/// Output that does not name the temporary reference is kept as it is.
pub proof fn lemma_replace_absent(s: Seq<char>, pat: Seq<char>, rep: Seq<char>, i: int)
    requires
        pat.len() > 0,
        0 <= i <= s.len(),
        !contains_seq(s, pat),
    ensures
        crate::text::replace_all_from(s, pat, rep, i) == s.skip(i),
    decreases s.len() - i,
{
    if i < s.len() {
        assert(!crate::text::occurs_at(s, pat, i));
        lemma_replace_absent(s, pat, rep, i + 1);
        assert(s.skip(i) =~= seq![s[i]] + s.skip(i + 1));
    } else {
        assert(s.skip(i) =~= Seq::<char>::empty());
    }
}

/// Renaming the temporary reference in the error output changes nothing
/// when it is named after itself or when the output does not mention it.
pub proof fn lemma_push_output_unchanged(stderr: Seq<char>, namespace: Seq<char>, display: Seq<char>)
    requires
        display == push_head_ref(namespace) || !contains_seq(stderr, push_head_ref(namespace)),
    ensures
        replace_all(stderr, push_head_ref(namespace), display) == stderr,
{
    reveal_strlit("refs/");
    assert(stderr.skip(0) =~= stderr);
    if display == push_head_ref(namespace) {
        lemma_replace_same(stderr, push_head_ref(namespace), 0);
    } else {
        lemma_replace_absent(stderr, push_head_ref(namespace), display, 0);
    }
}

// ---------------------------------------------------------------------------
// The default branch
// ---------------------------------------------------------------------------

/// The command that asks the remote where its `HEAD` points.
pub open spec fn ls_remote_command_text(url: Seq<char>) -> Seq<char> {
    "git ls-remote --symref "@ + url + " "@ + "HEAD"@
}

/// The default branch named by `git ls-remote --symref <url> HEAD`: its
/// first line (`refs/heads/master` when there is none) without the first
/// `ref: ` and the first tab before `HEAD`.
pub open spec fn head_of_listing(stdout: Seq<char>) -> Seq<char> {
    let line = match first_line(stdout) {
        Some(l) => l,
        None => "refs/heads/master"@,
    };
    replace_first(replace_first(line, "ref: "@, ""@), "\tHEAD"@, ""@)
}

/// The command that asks the remote at `url` where its `HEAD` points.
pub fn ls_remote_command(url: &str) -> (c: String)
    ensures
        c@ == ls_remote_command_text(url@),
{
    let mut c = concat3("git ls-remote --symref ", url, " ");
    c.append("HEAD");
    c
}

/// Reads the default branch from the output of `git ls-remote --symref`.
pub fn head_from_ls_remote(stdout: &str) -> (head: String)
    ensures
        head@ == head_of_listing(stdout@),
{
    let line = match first_line_exec(stdout) {
        Some(l) => l,
        None => copy_str("refs/heads/master"),
    };
    let head = replace_first_exec(line.as_str(), "ref: ", "");
    replace_first_exec(head.as_str(), "\tHEAD", "")
}

// ---------------------------------------------------------------------------
// Fetching
// ---------------------------------------------------------------------------

/// The git namespace of an upstream repository path: the path without
/// leading and trailing `/`, with each `/` turned into `/refs/namespaces/`.
pub open spec fn namespace_of(path: Seq<char>) -> Seq<char> {
    replace_all(trim_char(path, '/'), "/"@, "/refs/namespaces/"@)
}

/// The refspec that fetches `r` into the upstream namespace `ns`.
pub open spec fn fetch_refspec(ns: Seq<char>, r: Seq<char>) -> Seq<char> {
    "'+"@ + r + ":refs/josh/upstream/"@ + ns + "/"@ + r + "'"@
}

/// The `git fetch` command line for the given refspecs.
pub open spec fn fetch_command_text(url: Seq<char>, specs: Seq<Seq<char>>) -> Seq<char> {
    "git fetch --prune --no-tags "@ + url + " "@ + join(specs, " "@)
}

/// How a fetch ended, read from its error output.
pub open spec fn fetch_result_ok(stderr: Seq<char>) -> Option<bool> {
    if contains_seq(stderr, "fatal: Authentication failed"@) {
        Some(false)
    } else if contains_seq(stderr, "fatal:"@) || contains_seq(stderr, "error:"@) {
        None
    } else {
        Some(true)
    }
}

/// The git namespace that mirrors the upstream repository at `path`.
pub fn to_ns(path: &str) -> (ns: String)
    ensures
        ns@ == namespace_of(path@),
{
    let trimmed = trim_char_exec(path, '/');
    proof {
        reveal_strlit("/");
    }
    replace_all_exec(trimmed.as_str(), "/", "/refs/namespaces/")
}

/// The refspecs that mirror each of `refs_prefixes` of the upstream
/// repository `upstream_repo` under `refs/josh/upstream`.
pub fn fetch_refspecs(upstream_repo: &str, refs_prefixes: &Vec<String>) -> (specs: Vec<String>)
    ensures
        specs@.len() == refs_prefixes@.len(),
        forall|i: int|
            0 <= i < specs@.len() ==> #[trigger] specs@[i]@ == fetch_refspec(
                namespace_of(upstream_repo@),
                refs_prefixes@[i]@,
            ),
{
    let ns = to_ns(upstream_repo);
    let mut specs: Vec<String> = Vec::new();
    let mut i: usize = 0;
    while i < refs_prefixes.len()
        invariant
            i <= refs_prefixes@.len(),
            ns@ == namespace_of(upstream_repo@),
            specs@.len() == i,
            forall|k: int|
                0 <= k < i ==> #[trigger] specs@[k]@ == fetch_refspec(
                    ns@,
                    refs_prefixes@[k]@,
                ),
        decreases refs_prefixes.len() - i,
    {
        let r = refs_prefixes[i].as_str();
        let mut s = concat3("'+", r, ":refs/josh/upstream/");
        s.append(ns.as_str());
        s.append("/");
        s.append(r);
        s.append("'");
        specs.push(s);
        i += 1;
    }
    specs
}

/// The `git fetch` command that mirrors `refs_prefixes` of the upstream
/// repository `upstream_repo` from `url`.
pub fn fetch_command(url: &str, upstream_repo: &str, refs_prefixes: &Vec<String>) -> (c: String)
    ensures
        c@ == fetch_command_text(
            url@,
            refs_prefixes@.map_values(
                |r: String| fetch_refspec(namespace_of(upstream_repo@), r@),
            ),
        ),
{
    let specs = fetch_refspecs(upstream_repo, refs_prefixes);
    let joined = join_exec(&specs, " ");
    assert(views(specs@) =~= refs_prefixes@.map_values(
        |r: String| fetch_refspec(namespace_of(upstream_repo@), r@),
    ));
    let mut c = concat3("git fetch --prune --no-tags ", url, " ");
    c.append(joined.as_str());
    c
}

/// Reads how a fetch ended from its error output: `Ok(false)` when the
/// remote refused the credentials, an error when git reported a fatal
/// error or an error, and `Ok(true)` otherwise.
pub fn fetch_outcome(stderr: &str) -> (r: Result<bool, ProxyError>)
    ensures
        match fetch_result_ok(stderr@) {
            Some(b) => r == Ok::<bool, ProxyError>(b),
            None => r matches Err(ProxyError::FetchFailed(t)) && t@ == stderr@,
        },
{
    if str_contains(stderr, "fatal: Authentication failed") {
        return Ok(false);
    }
    if str_contains(stderr, "fatal:") {
        return Err(ProxyError::FetchFailed(copy_str(stderr)));
    }
    if str_contains(stderr, "error:") {
        return Err(ProxyError::FetchFailed(copy_str(stderr)));
    }
    Ok(true)
}

/// A refused login reported anywhere in the error output, after whatever
/// git printed before it, reads as credentials refused.
pub proof fn lemma_fetch_login_refused_anywhere(before: Seq<char>, after: Seq<char>)
    ensures
        fetch_result_ok(before + "fatal: Authentication failed"@ + after) == Some(false),
{
    let m = "fatal: Authentication failed"@;
    let s = before + m + after;
    assert(s.subrange(before.len() as int, (before.len() + m.len()) as int) =~= m);
    assert(occurs_at(s, m, before.len() as int));
}

/// A fatal error or an error reported anywhere in the error output never
/// reads as a fetch that worked: it is an error, or credentials refused.
pub proof fn lemma_fetch_error_anywhere(before: Seq<char>, marker: Seq<char>, after: Seq<char>)
    requires
        marker == "fatal:"@ || marker == "error:"@,
    ensures
        fetch_result_ok(before + marker + after) != Some(true),
{
    let s = before + marker + after;
    assert(s.subrange(before.len() as int, (before.len() + marker.len()) as int) =~= marker);
    assert(occurs_at(s, marker, before.len() as int));
}

/// Credentials count as refused only when the output reports a refused
/// login somewhere.
pub proof fn lemma_fetch_refused_only_on_login_failure(stderr: Seq<char>)
    requires
        fetch_result_ok(stderr) == Some(false),
    ensures
        exists|i: int| occurs_at(stderr, "fatal: Authentication failed"@, i),
{
}

/// A fetch reads as having worked only when the output reports no fatal
/// error and no error at any position.
pub proof fn lemma_fetch_worked_only_when_clean(stderr: Seq<char>)
    requires
        fetch_result_ok(stderr) == Some(true),
    ensures
        forall|i: int|
            !occurs_at(stderr, "fatal:"@, i) && !occurs_at(stderr, "error:"@, i) && !occurs_at(
                stderr,
                "fatal: Authentication failed"@,
                i,
            ),
{
}

} // verus!
