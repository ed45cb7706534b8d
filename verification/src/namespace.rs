//! Temporary git namespaces, one per request, under which a request keeps
//! its references.

use vstd::prelude::*;

use crate::oid::is_lower_hex;
use crate::text::{concat2, copy_str, has_prefix};

verus! {

/// The text of a random (version 4) UUID as `uuid` writes it: 36
/// characters, `-` at positions 8, 13, 18 and 23, lowercase hexadecimal
/// digits elsewhere, the version digit `4` at position 14 and one of
/// `8`, `9`, `a`, `b` at position 19.
pub open spec fn is_v4_uuid_text(s: Seq<char>) -> bool {
    &&& s.len() == 36
    &&& forall|i: int|
        0 <= i < 36 ==> if i == 8 || i == 13 || i == 18 || i == 23 {
            s[i] == '-'
        } else {
            is_lower_hex(#[trigger] s[i])
        }
    &&& s[14] == '4'
    &&& (s[19] == '8' || s[19] == '9' || s[19] == 'a' || s[19] == 'b')
}

/// The name of a request namespace: `request_` and a random UUID.
pub open spec fn is_request_name(name: Seq<char>) -> bool {
    &&& has_prefix(name, "request_"@)
    &&& is_v4_uuid_text(name.skip("request_"@.len() as int))
}

/// `uuid::Uuid::new_v4().to_string()`: a fresh random UUID.
///
/// The value is random; the contract states the shape that every outcome
/// has (the version and variant bits are fixed, `Display` writes the
/// hyphenated lowercase form).
#[verifier::external_body]
fn random_uuid_text() -> (s: String)
    ensures
        is_v4_uuid_text(s@),
{
    uuid::Uuid::new_v4().to_string()
}

/// A temporary git namespace in a repository, named after the request it
/// belongs to.
pub struct TmpGitNamespace {
    name: String,
    repo_path: String,
}

impl TmpGitNamespace {
    /// The name of the namespace.
    pub closed spec fn name_view(&self) -> Seq<char> {
        self.name@
    }

    /// The path of the repository the namespace lives in.
    pub closed spec fn repo_path_view(&self) -> Seq<char> {
        self.repo_path@
    }

    /// The namespace `request_<uuid>` in the repository at `repo_path`,
    /// for a UUID text that the caller has drawn.
    pub fn with_uuid(repo_path: &str, uuid: &str) -> (ns: TmpGitNamespace)
        ensures
            ns.name_view() == "request_"@ + uuid@,
            ns.repo_path_view() == repo_path@,
    {
        TmpGitNamespace { name: concat2("request_", uuid), repo_path: copy_str(repo_path) }
    }

    /// A fresh namespace `request_<uuid>` in the repository at `repo_path`,
    /// named after a newly drawn random UUID.
    pub fn new(repo_path: &str) -> (ns: TmpGitNamespace)
        ensures
            is_request_name(ns.name_view()),
            ns.repo_path_view() == repo_path@,
    {
        let id = random_uuid_text();
        let ns = TmpGitNamespace::with_uuid(repo_path, id.as_str());
        proof {
            let p = "request_"@;
            assert(ns.name_view().take(p.len() as int) =~= p);
            assert(ns.name_view().skip(p.len() as int) =~= id@);
        }
        ns
    }

    /// The name of the namespace.
    pub fn name(&self) -> (n: &str)
        ensures
            n@ == self.name_view(),
    {
        self.name.as_str()
    }

    /// The path of the repository the namespace lives in.
    pub fn repo_path(&self) -> (p: &str)
        ensures
            p@ == self.repo_path_view(),
    {
        self.repo_path.as_str()
    }

    /// The full name of `refname` inside the namespace.
    pub fn reference(&self, refname: &str) -> (r: String)
        ensures
            r@ == "refs/namespaces/"@ + self.name_view() + "/"@ + refname@,
    {
        let mut r = concat2("refs/namespaces/", self.name.as_str());
        r.append("/");
        r.append(refname);
        r
    }
}

/// The reference names of one namespace never collide: different names
/// inside it give different references.
pub proof fn lemma_reference_injective(name: Seq<char>, a: Seq<char>, b: Seq<char>)
    requires
        "refs/namespaces/"@ + name + "/"@ + a == "refs/namespaces/"@ + name + "/"@ + b,
    ensures
        a == b,
{
    let p = "refs/namespaces/"@ + name + "/"@;
    assert(("refs/namespaces/"@ + name + "/"@ + a).skip(p.len() as int) =~= a);
    assert(("refs/namespaces/"@ + name + "/"@ + b).skip(p.len() as int) =~= b);
}

/// A request namespace name holds no `/`, so its references all sit one
/// level below `refs/namespaces/`.
pub proof fn lemma_request_name_has_no_slash(name: Seq<char>)
    requires
        is_request_name(name),
    ensures
        forall|i: int| 0 <= i < name.len() ==> name[i] != '/',
{
    reveal_strlit("request_");
    let p = "request_"@;
    let u = name.skip(p.len() as int);
    assert forall|i: int| 0 <= i < name.len() implies name[i] != '/' by {
        if i < p.len() {
            assert(name[i] == name.take(p.len() as int)[i]);
        } else {
            assert(name[i] == u[i - p.len()]);
            if !(i - p.len() == 8 || i - p.len() == 13 || i - p.len() == 18 || i - p.len() == 23) {
                assert(is_lower_hex(u[i - p.len()]));
            }
        }
    }
}

} // verus!
