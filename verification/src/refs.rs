//! Reading the reference name that a client pushes to.
//!
//! A push goes to `<ref>` or to `<ref>%<option>,<option>,...`. Pushes to
//! `refs/for/<branch>` ask for review and, like pushes to
//! `refs/drafts/<branch>`, land on `refs/heads/<branch>`.

use vstd::prelude::*;

use crate::error::ProxyError;
use crate::text::{
    chars_of, concat2, concat3, copy_str, first_index, has_char, has_prefix, is_first_index, join,
    join_exec, lemma_join_split, lemma_split_nonempty, lemma_split_pieces_free, split_on,
    split_on_exec, split_once, split_once_exec, str_starts_with, string_of_range, views,
};

verus! {

/// The reference that the push names, before any `%`.
pub open spec fn push_target(refname: Seq<char>) -> Seq<char> {
    split_once(refname, '%').0
}

/// The options after the first `%`, split at `,`; none without a `%`.
pub open spec fn push_option_list(refname: Seq<char>) -> Seq<Seq<char>> {
    match split_once(refname, '%').1 {
        Some(rest) => split_on(rest, ','),
        None => Seq::<Seq<char>>::empty(),
    }
}

/// The push asks for review: its target starts with `refs/for`.
pub open spec fn is_review_push(refname: Seq<char>) -> bool {
    has_prefix(push_target(refname), "refs/for"@)
}

/// `s` with its leading `from` replaced by `to`, when it starts with `from`.
pub open spec fn swap_prefix(s: Seq<char>, from: Seq<char>, to: Seq<char>) -> Seq<char> {
    if has_prefix(s, from) {
        to + s.skip(from.len() as int)
    } else {
        s
    }
}

/// The branch that the push updates: the target, with a leading
/// `refs/for` and then a leading `refs/drafts` turned into `refs/heads`.
pub open spec fn base_ref_of(refname: Seq<char>) -> Seq<char> {
    swap_prefix(
        swap_prefix(push_target(refname), "refs/for"@, "refs/heads"@),
        "refs/drafts"@,
        "refs/heads"@,
    )
}

/// The reference name rebuilt from a target and its options.
pub open spec fn with_options(push_to: Seq<char>, options: Seq<Seq<char>>) -> Seq<char> {
    if options.len() == 0 {
        push_to
    } else {
        push_to + "%"@ + join(options, ","@)
    }
}

/// `s` with its leading `from` replaced by `to`, when it starts with `from`.
fn swap_prefix_exec(s: &str, from: &str, to: &str) -> (out: String)
    ensures
        out@ == swap_prefix(s@, from@, to@),
{
    if str_starts_with(s, from) {
        let sv = chars_of(s);
        let fv = chars_of(from);
        let rest = string_of_range(sv.as_slice(), fv.len(), sv.len());
        assert(rest@ =~= s@.skip(from@.len() as int));
        concat2(to, rest.as_str())
    } else {
        copy_str(s)
    }
}

/// Takes apart the reference name of a push: the branch it updates, the
/// target as pushed, the options and whether it asks for review.
///
/// Reading never fails.
pub fn baseref_and_options(refname: &str) -> (r: Result<(String, String, Vec<String>, bool), ProxyError>)
    ensures
        match r {
            Ok((baseref, push_to, options, for_review)) => {
                &&& baseref@ == base_ref_of(refname@)
                &&& push_to@ == push_target(refname@)
                &&& views(options@) == push_option_list(refname@)
                &&& for_review == is_review_push(refname@)
            },
            Err(_) => false,
        },
{
    let (push_to, rest) = split_once_exec(refname, '%');
    let options = match rest {
        Some(rest) => split_on_exec(rest.as_str(), ','),
        None => {
            let v: Vec<String> = Vec::new();
            assert(views(v@) =~= Seq::<Seq<char>>::empty());
            v
        },
    };
    let for_review = str_starts_with(push_to.as_str(), "refs/for");
    let baseref = swap_prefix_exec(push_to.as_str(), "refs/for", "refs/heads");
    let baseref = swap_prefix_exec(baseref.as_str(), "refs/drafts", "refs/heads");
    Ok((baseref, push_to, options, for_review))
}

/// The reference name pushed upstream: the target, followed by `%` and the
/// options joined with `,` when there are any.
pub fn ref_with_options(push_to: &str, options: &Vec<String>) -> (out: String)
    ensures
        out@ == with_options(push_to@, views(options@)),
{
    if options.len() == 0 {
        copy_str(push_to)
    } else {
        let joined = join_exec(options, ",");
        concat3(push_to, "%", joined.as_str())
    }
}

/// Rebuilding a reference name from its target and options gives the
/// name back, so a push goes upstream to the name that the client pushed.
pub proof fn lemma_refname_round_trip(refname: Seq<char>)
    ensures
        with_options(push_target(refname), push_option_list(refname)) == refname,
{
    match first_index(refname, '%') {
        Some(k) => {
            assert(is_first_index(refname, '%', k)) by {
                assert(exists|i: int| is_first_index(refname, '%', i));
            }
            let rest = refname.skip(k + 1);
            lemma_split_nonempty(rest, ',');
            lemma_join_split(rest, ',');
            reveal_strlit("%");
            reveal_strlit(",");
            assert(","@ =~= seq![',']);
            assert(refname.take(k) + "%"@ + rest =~= refname);
        },
        None => {},
    }
}

/// The target holds no `%` and no option holds a `,`.
pub proof fn lemma_refname_parts_free(refname: Seq<char>)
    ensures
        !has_char(push_target(refname), '%'),
        forall|k: int, j: int|
            0 <= k < push_option_list(refname).len() && 0 <= j < push_option_list(
                refname,
            )[k].len() ==> push_option_list(refname)[k][j] != ',',
{
    match first_index(refname, '%') {
        Some(k) => {
            assert(is_first_index(refname, '%', k)) by {
                assert(exists|i: int| is_first_index(refname, '%', i));
            }
            lemma_split_pieces_free(refname.skip(k + 1), ',');
        },
        None => {
            if has_char(refname, '%') {
                let i = choose|i: int| 0 <= i < refname.len() && refname[i] == '%';
                lemma_first_char_exists(refname, '%', i);
            }
        },
    }
}

/// Where a character occurs, it has a first position.
pub proof fn lemma_first_char_exists(s: Seq<char>, c: char, i: int)
    requires
        0 <= i < s.len(),
        s[i] == c,
    ensures
        first_index(s, c) is Some,
    decreases i,
{
    if exists|j: int| 0 <= j < i && s[j] == c {
        let j = choose|j: int| 0 <= j < i && s[j] == c;
        lemma_first_char_exists(s, c, j);
    } else {
        assert(is_first_index(s, c, i));
    }
}

/// A push for review lands on a branch under `refs/heads`.
pub proof fn lemma_review_push_lands_on_heads(refname: Seq<char>)
    requires
        is_review_push(refname),
    ensures
        has_prefix(base_ref_of(refname), "refs/heads"@),
{
    let t = push_target(refname);
    let b = "refs/heads"@ + t.skip("refs/for"@.len() as int);
    assert(b.take("refs/heads"@.len() as int) =~= "refs/heads"@);
    if has_prefix(b, "refs/drafts"@) {
        reveal_strlit("refs/heads");
        reveal_strlit("refs/drafts");
        assert(b[5] == "refs/drafts"@[5]);
    }
}

} // verus!
