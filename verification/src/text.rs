//! Character-level string operations used to build and take apart git
//! reference names, refspecs and command lines.
//!
//! Every operation is specified over `Seq<char>`, the view of `str` and
//! `String`, and follows the behaviour of the `str` method it is named after.

use vstd::prelude::*;

verus! {

// ---------------------------------------------------------------------------
// Specifications
// ---------------------------------------------------------------------------

/// `pat` occurs in `s` starting at position `i`.
pub open spec fn occurs_at(s: Seq<char>, pat: Seq<char>, i: int) -> bool {
    0 <= i && i + pat.len() <= s.len() && s.subrange(i, i + pat.len()) == pat
}

/// `pat` occurs somewhere in `s` (`str::contains`).
pub open spec fn contains_seq(s: Seq<char>, pat: Seq<char>) -> bool {
    exists|i: int| occurs_at(s, pat, i)
}

/// `s` begins with `p` (`str::starts_with`).
pub open spec fn has_prefix(s: Seq<char>, p: Seq<char>) -> bool {
    p.len() <= s.len() && s.take(p.len() as int) == p
}

/// `c` occurs in `s`.
pub open spec fn has_char(s: Seq<char>, c: char) -> bool {
    exists|i: int| 0 <= i < s.len() && s[i] == c
}

/// `i` is the position of the first `c` in `s`.
pub open spec fn is_first_index(s: Seq<char>, c: char, i: int) -> bool {
    &&& 0 <= i < s.len()
    &&& s[i] == c
    &&& forall|j: int| 0 <= j < i ==> s[j] != c
}

/// The position of the first `c` in `s`, if there is one.
pub open spec fn first_index(s: Seq<char>, c: char) -> Option<int> {
    if exists|i: int| is_first_index(s, c, i) {
        Some(choose|i: int| is_first_index(s, c, i))
    } else {
        None
    }
}

/// `str::splitn(2, c)`: the text before the first `c`, and the text after
/// it when there is one.
pub open spec fn split_once(s: Seq<char>, c: char) -> (Seq<char>, Option<Seq<char>>) {
    match first_index(s, c) {
        Some(k) => (s.take(k), Some(s.skip(k + 1))),
        None => (s, None),
    }
}

/// `str::split(c)`: the pieces of `s` between occurrences of `c`. There is
/// always at least one piece; the empty text gives one empty piece.
pub open spec fn split_on(s: Seq<char>, c: char) -> Seq<Seq<char>>
    decreases s.len(),
{
    if s.len() == 0 {
        seq![Seq::<char>::empty()]
    } else {
        let init = split_on(s.drop_last(), c);
        if s.last() == c {
            init.push(Seq::<char>::empty())
        } else {
            init.update(init.len() - 1, init.last().push(s.last()))
        }
    }
}

/// `[..].join(sep)`: the pieces with `sep` between each two of them.
pub open spec fn join(parts: Seq<Seq<char>>, sep: Seq<char>) -> Seq<char>
    decreases parts.len(),
{
    if parts.len() == 0 {
        Seq::<char>::empty()
    } else if parts.len() == 1 {
        parts[0]
    } else {
        join(parts.drop_last(), sep) + sep + parts.last()
    }
}

/// Scanning from position `i`, every non-overlapping occurrence of the
/// non-empty `pat` is replaced by `rep`, left to right.
pub open spec fn replace_all_from(s: Seq<char>, pat: Seq<char>, rep: Seq<char>, i: int) -> Seq<
    char,
>
    decreases s.len() - i,
{
    if i < 0 || i >= s.len() {
        Seq::<char>::empty()
    } else if pat.len() > 0 && occurs_at(s, pat, i) {
        rep + replace_all_from(s, pat, rep, i + pat.len())
    } else {
        seq![s[i]] + replace_all_from(s, pat, rep, i + 1)
    }
}

/// `str::replace(pat, rep)` for a non-empty `pat`.
pub open spec fn replace_all(s: Seq<char>, pat: Seq<char>, rep: Seq<char>) -> Seq<char> {
    replace_all_from(s, pat, rep, 0)
}

/// Scanning from position `i`, the first occurrence of `pat` is replaced
/// by `rep`; the rest is kept.
pub open spec fn replace_first_from(s: Seq<char>, pat: Seq<char>, rep: Seq<char>, i: int) -> Seq<
    char,
>
    decreases s.len() - i,
{
    if i < 0 || i + pat.len() > s.len() {
        s.subrange(i, s.len() as int)
    } else if occurs_at(s, pat, i) {
        rep + s.subrange(i + pat.len(), s.len() as int)
    } else if i >= s.len() {
        s.subrange(i, s.len() as int)
    } else {
        seq![s[i]] + replace_first_from(s, pat, rep, i + 1)
    }
}

/// `str::replacen(pat, rep, 1)`.
pub open spec fn replace_first(s: Seq<char>, pat: Seq<char>, rep: Seq<char>) -> Seq<char> {
    replace_first_from(s, pat, rep, 0)
}

/// A line without its `\r` when it ends in one.
pub open spec fn strip_cr(line: Seq<char>) -> Seq<char> {
    if line.len() > 0 && line.last() == '\r' {
        line.drop_last()
    } else {
        line
    }
}

/// `str::lines().next()`: the text up to the first `\n` (without a `\r`
/// just before it), the whole text when there is no `\n`, and nothing for
/// the empty text.
pub open spec fn first_line(s: Seq<char>) -> Option<Seq<char>> {
    if s.len() == 0 {
        None
    } else {
        match first_index(s, '\n') {
            Some(k) => Some(strip_cr(s.take(k))),
            None => Some(s),
        }
    }
}

/// `s` without all leading `c`.
pub open spec fn trim_start_char(s: Seq<char>, c: char) -> Seq<char>
    decreases s.len(),
{
    if s.len() > 0 && s[0] == c {
        trim_start_char(s.drop_first(), c)
    } else {
        s
    }
}

/// `s` without all trailing `c`.
pub open spec fn trim_end_char(s: Seq<char>, c: char) -> Seq<char>
    decreases s.len(),
{
    if s.len() > 0 && s.last() == c {
        trim_end_char(s.drop_last(), c)
    } else {
        s
    }
}

/// `str::trim_matches(c)`.
pub open spec fn trim_char(s: Seq<char>, c: char) -> Seq<char> {
    trim_end_char(trim_start_char(s, c), c)
}

/// The views of a sequence of strings.
pub open spec fn views(v: Seq<String>) -> Seq<Seq<char>> {
    v.map_values(|x: String| x@)
}

// ---------------------------------------------------------------------------
// Lemmas
// ---------------------------------------------------------------------------

/// There is at most one first position of a character.
pub proof fn lemma_first_index_unique(s: Seq<char>, c: char, i: int)
    requires
        is_first_index(s, c, i),
    ensures
        first_index(s, c) == Some(i),
{
    let k = choose|k: int| is_first_index(s, c, k);
    assert(is_first_index(s, c, k));
    if k < i {
        assert(s[k] != c);
    }
    if i < k {
        assert(s[i] != c);
    }
}

/// With no `c` in `s` there is no first position of it.
pub proof fn lemma_first_index_none(s: Seq<char>, c: char)
    requires
        forall|j: int| 0 <= j < s.len() ==> s[j] != c,
    ensures
        first_index(s, c) == None::<int>,
{
}

/// `split_on` always yields at least one piece.
pub proof fn lemma_split_nonempty(s: Seq<char>, c: char)
    ensures
        split_on(s, c).len() >= 1,
    decreases s.len(),
{
    if s.len() > 0 {
        lemma_split_nonempty(s.drop_last(), c);
    }
}

/// A text without `c` is a single piece.
pub proof fn lemma_split_without_sep(s: Seq<char>, c: char)
    requires
        forall|j: int| 0 <= j < s.len() ==> s[j] != c,
    ensures
        split_on(s, c) == seq![s],
    decreases s.len(),
{
    if s.len() == 0 {
        assert(s =~= Seq::<char>::empty());
    } else {
        lemma_split_without_sep(s.drop_last(), c);
        assert(s.last() != c);
        assert(s.drop_last().push(s.last()) =~= s);
        assert(seq![s.drop_last()].update(0, s) =~= seq![s]);
    }
}

/// Splitting two texts joined by `c` gives the pieces of the first, then
/// those of the second.
pub proof fn lemma_split_at_sep(a: Seq<char>, b: Seq<char>, c: char)
    ensures
        split_on(a + seq![c] + b, c) == split_on(a, c) + split_on(b, c),
    decreases b.len(),
{
    let s = a + seq![c] + b;
    if b.len() == 0 {
        assert(s.drop_last() =~= a);
        assert(split_on(b, c) =~= seq![Seq::<char>::empty()]);
        assert(split_on(a, c).push(Seq::<char>::empty()) =~= split_on(a, c) + split_on(b, c));
    } else {
        assert(s.drop_last() =~= a + seq![c] + b.drop_last());
        lemma_split_at_sep(a, b.drop_last(), c);
        lemma_split_nonempty(b.drop_last(), c);
        let pa = split_on(a, c);
        let pb = split_on(b.drop_last(), c);
        if b.last() == c {
            assert((pa + pb).push(Seq::<char>::empty()) =~= pa + pb.push(Seq::<char>::empty()));
        } else {
            let init = pa + pb;
            assert(init.update(init.len() - 1, init.last().push(s.last())) =~= pa + pb.update(
                pb.len() - 1,
                pb.last().push(b.last()),
            ));
        }
    }
}

/// Extending the last piece extends the joined text.
pub proof fn lemma_join_extend_last(parts: Seq<Seq<char>>, sep: Seq<char>, x: char)
    requires
        parts.len() >= 1,
    ensures
        join(parts.update(parts.len() - 1, parts.last().push(x)), sep) == join(parts, sep).push(x),
{
    let p2 = parts.update(parts.len() - 1, parts.last().push(x));
    if parts.len() == 1 {
        assert(p2[0] == parts[0].push(x));
    } else {
        assert(p2.drop_last() =~= parts.drop_last());
        assert(p2.last() == parts.last().push(x));
        assert(join(p2, sep) == join(parts.drop_last(), sep) + sep + parts.last().push(x));
        assert(join(parts.drop_last(), sep) + sep + parts.last().push(x) =~= (join(
            parts.drop_last(),
            sep,
        ) + sep + parts.last()).push(x));
    }
}

/// Joining the pieces of `s` split at `c` with `c` gives back `s`.
pub proof fn lemma_join_split(s: Seq<char>, c: char)
    ensures
        join(split_on(s, c), seq![c]) == s,
    decreases s.len(),
{
    if s.len() == 0 {
        assert(split_on(s, c) =~= seq![Seq::<char>::empty()]);
        assert(s =~= Seq::<char>::empty());
    } else {
        let init = split_on(s.drop_last(), c);
        lemma_join_split(s.drop_last(), c);
        lemma_split_nonempty(s.drop_last(), c);
        if s.last() == c {
            let parts = init.push(Seq::<char>::empty());
            assert(parts.drop_last() =~= init);
            assert(join(parts, seq![c]) == join(init, seq![c]) + seq![c] + Seq::<char>::empty());
            assert(s.drop_last() + seq![c] + Seq::<char>::empty() =~= s);
        } else {
            lemma_join_extend_last(init, seq![c], s.last());
            assert(s.drop_last().push(s.last()) =~= s);
        }
    }
}

/// No piece of a split contains the separator.
pub proof fn lemma_split_pieces_free(s: Seq<char>, c: char)
    ensures
        forall|k: int, j: int|
            0 <= k < split_on(s, c).len() && 0 <= j < split_on(s, c)[k].len() ==> split_on(
                s,
                c,
            )[k][j] != c,
    decreases s.len(),
{
    if s.len() > 0 {
        lemma_split_pieces_free(s.drop_last(), c);
        lemma_split_nonempty(s.drop_last(), c);
        let init = split_on(s.drop_last(), c);
        if s.last() != c {
            let parts = split_on(s, c);
            assert forall|k: int, j: int|
                0 <= k < parts.len() && 0 <= j < parts[k].len() implies parts[k][j] != c by {
                if k == init.len() - 1 {
                    if j < init.last().len() {
                        assert(parts[k][j] == init.last()[j]);
                    }
                } else {
                    assert(parts[k] == init[k]);
                }
            }
        } else {
            let parts = split_on(s, c);
            assert forall|k: int, j: int|
                0 <= k < parts.len() && 0 <= j < parts[k].len() implies parts[k][j] != c by {
                assert(parts[k] == init[k]);
            }
        }
    }
}

// ---------------------------------------------------------------------------
// Building strings
// ---------------------------------------------------------------------------

/// `String::push`: appends one character to the string.
#[verifier::external_body]
pub(crate) fn push_char(s: &mut String, c: char)
    ensures
        final(s)@ == old(s)@.push(c),
{
    s.push(c)
}

/// The characters of `s`, in order.
pub fn chars_of(s: &str) -> (out: Vec<char>)
    ensures
        out@ == s@,
{
    let mut out: Vec<char> = Vec::new();
    for c in it: s.chars()
        invariant
            out@ == it.seq().take(it.index() as int),
            it.seq() == s@,
    {
        out.push(c);
    }
    out
}

/// The string made of the characters `s[from..to]`.
pub fn string_of_range(s: &[char], from: usize, to: usize) -> (out: String)
    requires
        from <= to <= s@.len(),
    ensures
        out@ == s@.subrange(from as int, to as int),
{
    let mut out = String::new();
    let mut i = from;
    while i < to
        invariant
            from <= i <= to <= s@.len(),
            out@ == s@.subrange(from as int, i as int),
        decreases to - i,
    {
        push_char(&mut out, s[i]);
        assert(s@.subrange(from as int, i + 1) =~= s@.subrange(from as int, i as int).push(s@[i as int]));
        i += 1;
    }
    out
}

/// The string made of the characters `s`.
pub fn string_of(s: &[char]) -> (out: String)
    ensures
        out@ == s@,
{
    let out = string_of_range(s, 0, s.len());
    assert(s@.subrange(0, s@.len() as int) =~= s@);
    out
}

/// A copy of `s`.
pub fn copy_str(s: &str) -> (out: String)
    ensures
        out@ == s@,
{
    let mut out = String::new();
    out.append(s);
    assert(out@ =~= s@);
    out
}

/// `a` followed by `b`.
pub fn concat2(a: &str, b: &str) -> (out: String)
    ensures
        out@ == a@ + b@,
{
    let mut out = String::new();
    out.append(a);
    out.append(b);
    assert(out@ =~= a@ + b@);
    out
}

/// `a`, `b` and `c`, one after the other.
pub fn concat3(a: &str, b: &str, c: &str) -> (out: String)
    ensures
        out@ == a@ + b@ + c@,
{
    let mut out = concat2(a, b);
    out.append(c);
    out
}

// ---------------------------------------------------------------------------
// Searching
// ---------------------------------------------------------------------------

/// Whether `pat` occurs in `s` at position `i`.
pub fn occurs_at_exec(s: &[char], pat: &[char], i: usize) -> (b: bool)
    ensures
        b == occurs_at(s@, pat@, i as int),
{
    if pat.len() > s.len() || i > s.len() - pat.len() {
        return false;
    }
    let mut j: usize = 0;
    let n = s.len();
    while j < pat.len()
        invariant
            n == s@.len(),
            i + pat@.len() <= n,
            j <= pat@.len(),
            forall|k: int| 0 <= k < j ==> s@[i + k] == pat@[k],
        decreases pat.len() - j,
    {
        if s[i + j] != pat[j] {
            assert(s@.subrange(i as int, i + pat@.len())[j as int] != pat@[j as int]);
            return false;
        }
        j += 1;
    }
    assert(s@.subrange(i as int, i + pat@.len()) =~= pat@);
    true
}

/// Whether `pat` occurs anywhere in `s`.
pub fn contains_exec(s: &[char], pat: &[char]) -> (b: bool)
    ensures
        b == contains_seq(s@, pat@),
{
    if pat.len() == 0 {
        assert(s@.subrange(0, 0) =~= pat@);
        assert(occurs_at(s@, pat@, 0));
        return true;
    }
    if pat.len() > s.len() {
        return false;
    }
    let n = s.len();
    let last = n - pat.len();
    let mut i: usize = 0;
    while i <= last
        invariant
            n == s@.len(),
            last == s@.len() - pat@.len(),
            last < n,
            pat@.len() <= s@.len(),
            i <= last + 1,
            forall|k: int| 0 <= k < i ==> !occurs_at(s@, pat@, k),
        decreases last + 1 - i,
    {
        if occurs_at_exec(s, pat, i) {
            return true;
        }
        i += 1;
    }
    false
}

/// `str::contains` on two string slices.
pub fn str_contains(s: &str, pat: &str) -> (b: bool)
    ensures
        b == contains_seq(s@, pat@),
{
    let sv = chars_of(s);
    let pv = chars_of(pat);
    contains_exec(sv.as_slice(), pv.as_slice())
}

/// `str::contains` for a single character.
pub fn str_has_char(s: &str, c: char) -> (b: bool)
    ensures
        b == has_char(s@, c),
{
    let sv = chars_of(s);
    match first_index_exec(sv.as_slice(), c) {
        Some(i) => true,
        None => false,
    }
}

/// `str::starts_with` on two string slices.
pub fn str_starts_with(s: &str, p: &str) -> (b: bool)
    ensures
        b == has_prefix(s@, p@),
{
    let sv = chars_of(s);
    let pv = chars_of(p);
    let b = occurs_at_exec(sv.as_slice(), pv.as_slice(), 0);
    proof {
        if b {
            assert(sv@.subrange(0, pv@.len() as int) =~= sv@.take(pv@.len() as int));
        }
        if has_prefix(s@, p@) {
            assert(sv@.subrange(0, pv@.len() as int) =~= sv@.take(pv@.len() as int));
        }
    }
    b
}

/// The position of the first `c` in `s`.
pub fn first_index_exec(s: &[char], c: char) -> (r: Option<usize>)
    ensures
        match r {
            Some(i) => first_index(s@, c) == Some(i as int) && is_first_index(s@, c, i as int),
            None => first_index(s@, c) == None::<int> && !has_char(s@, c),
        },
{
    let mut i: usize = 0;
    while i < s.len()
        invariant
            i <= s@.len(),
            forall|j: int| 0 <= j < i ==> s@[j] != c,
        decreases s.len() - i,
    {
        if s[i] == c {
            proof {
                lemma_first_index_unique(s@, c, i as int);
            }
            return Some(i);
        }
        i += 1;
    }
    proof {
        lemma_first_index_none(s@, c);
    }
    None
}

// ---------------------------------------------------------------------------
// Splitting and joining
// ---------------------------------------------------------------------------

/// `str::splitn(2, c)`.
pub fn split_once_exec(s: &str, c: char) -> (r: (String, Option<String>))
    ensures
        r.0@ == split_once(s@, c).0,
        match r.1 {
            Some(rest) => split_once(s@, c).1 == Some(rest@),
            None => split_once(s@, c).1 == None::<Seq<char>>,
        },
{
    let sv = chars_of(s);
    match first_index_exec(sv.as_slice(), c) {
        Some(k) => {
            assert(k < sv.len());
            let head = string_of_range(sv.as_slice(), 0, k);
            let rest = string_of_range(sv.as_slice(), k + 1, sv.len());
            assert(sv@.subrange(0, k as int) =~= sv@.take(k as int));
            assert(sv@.subrange(k + 1, sv@.len() as int) =~= sv@.skip(k + 1));
            (head, Some(rest))
        },
        None => (copy_str(s), None),
    }
}

/// `str::split(c)`, collected.
pub fn split_on_exec(s: &str, c: char) -> (out: Vec<String>)
    ensures
        views(out@) == split_on(s@, c),
{
    let sv = chars_of(s);
    let mut pieces: Vec<String> = Vec::new();
    let mut cur = String::new();
    let mut i: usize = 0;
    assert(sv@.take(0) =~= Seq::<char>::empty());
    assert(views(pieces@).push(cur@) =~= split_on(sv@.take(0), c));
    while i < sv.len()
        invariant
            i <= sv@.len(),
            sv@ == s@,
            views(pieces@).push(cur@) == split_on(sv@.take(i as int), c),
        decreases sv.len() - i,
    {
        let ghost before = views(pieces@).push(cur@);
        assert(sv@.take(i + 1).drop_last() =~= sv@.take(i as int));
        assert(sv@.take(i + 1).last() == sv@[i as int]);
        if sv[i] == c {
            pieces.push(cur);
            cur = String::new();
            assert(views(pieces@).push(cur@) =~= before.push(Seq::<char>::empty()));
        } else {
            push_char(&mut cur, sv[i]);
            assert(views(pieces@).push(cur@) =~= before.update(
                before.len() - 1,
                before.last().push(sv@[i as int]),
            ));
        }
        i += 1;
    }
    pieces.push(cur);
    assert(sv@.take(sv@.len() as int) =~= sv@);
    pieces
}

/// `[..].join(sep)`.
pub fn join_exec(parts: &Vec<String>, sep: &str) -> (out: String)
    ensures
        out@ == join(views(parts@), sep@),
{
    let mut out = String::new();
    let ghost all = views(parts@);
    let mut i: usize = 0;
    while i < parts.len()
        invariant
            i <= parts@.len(),
            all == views(parts@),
            out@ == join(all.take(i as int), sep@),
        decreases parts.len() - i,
    {
        assert(all.take(i + 1).drop_last() =~= all.take(i as int));
        assert(all.take(i + 1).last() == parts@[i as int]@);
        if i == 0 {
            out.append(parts[i].as_str());
            assert(out@ =~= parts@[0]@);
        } else {
            out.append(sep);
            out.append(parts[i].as_str());
        }
        i += 1;
    }
    assert(all.take(parts@.len() as int) =~= all);
    out
}

// ---------------------------------------------------------------------------
// Replacing
// ---------------------------------------------------------------------------

/// `str::replace(pat, rep)` for a non-empty `pat`.
pub fn replace_all_exec(s: &str, pat: &str, rep: &str) -> (out: String)
    requires
        pat@.len() > 0,
    ensures
        out@ == replace_all(s@, pat@, rep@),
{
    let sv = chars_of(s);
    let pv = chars_of(pat);
    let mut out = String::new();
    let mut i: usize = 0;
    while i < sv.len()
        invariant
            i <= sv@.len(),
            sv@ == s@,
            pv@ == pat@,
            pat@.len() > 0,
            out@ + replace_all_from(s@, pat@, rep@, i as int) == replace_all(s@, pat@, rep@),
        decreases sv.len() - i,
    {
        let ghost old_out = out@;
        if occurs_at_exec(sv.as_slice(), pv.as_slice(), i) {
            let ghost tail = replace_all_from(s@, pat@, rep@, i + pv@.len());
            assert(replace_all_from(s@, pat@, rep@, i as int) == rep@ + tail);
            out.append(rep);
            assert(out@ + tail =~= old_out + (rep@ + tail));
            i = i + pv.len();
        } else {
            let ghost tail = replace_all_from(s@, pat@, rep@, i + 1);
            assert(replace_all_from(s@, pat@, rep@, i as int) == seq![sv@[i as int]] + tail);
            push_char(&mut out, sv[i]);
            assert(out@ + tail =~= old_out + (seq![sv@[i as int]] + tail));
            i += 1;
        }
    }
    assert(replace_all_from(s@, pat@, rep@, i as int) =~= Seq::<char>::empty());
    assert(out@ =~= out@ + Seq::<char>::empty());
    out
}

/// `str::replacen(pat, rep, 1)`.
pub fn replace_first_exec(s: &str, pat: &str, rep: &str) -> (out: String)
    ensures
        out@ == replace_first(s@, pat@, rep@),
{
    let sv = chars_of(s);
    let pv = chars_of(pat);
    let n = sv.len();
    let plen = pv.len();
    let mut out = String::new();
    if plen > n {
        assert(s@.subrange(0, s@.len() as int) =~= s@);
        return copy_str(s);
    }
    if plen == 0 {
        assert(s@.subrange(0, 0) =~= pat@);
        out.append(rep);
        out.append(s);
        assert(s@.subrange(0, s@.len() as int) =~= s@);
        return out;
    }
    let mut i: usize = 0;
    while i <= n - plen
        invariant
            n == sv@.len(),
            plen == pv@.len(),
            0 < plen <= n,
            i <= n - plen + 1,
            sv@ == s@,
            pv@ == pat@,
            out@ + replace_first_from(s@, pat@, rep@, i as int) == replace_first(s@, pat@, rep@),
        decreases n - plen + 1 - i,
    {
        let ghost old_out = out@;
        if occurs_at_exec(sv.as_slice(), pv.as_slice(), i) {
            let tail = string_of_range(sv.as_slice(), i + plen, n);
            out.append(rep);
            out.append(tail.as_str());
            assert(out@ =~= old_out + (rep@ + s@.subrange(i + plen, s@.len() as int)));
            return out;
        }
        let ghost tail = replace_first_from(s@, pat@, rep@, i + 1);
        assert(i < n) by {
            if i >= n {
                assert(plen == 0);
                assert(s@.subrange(i as int, i as int) =~= pat@);
            }
        }
        assert(replace_first_from(s@, pat@, rep@, i as int) == seq![sv@[i as int]] + tail);
        push_char(&mut out, sv[i]);
        assert(out@ + tail =~= old_out + (seq![sv@[i as int]] + tail));
        i += 1;
    }
    let rest = string_of_range(sv.as_slice(), i, n);
    out.append(rest.as_str());
    out
}

/// `str::lines().next()`, as an owned string.
pub fn first_line_exec(s: &str) -> (r: Option<String>)
    ensures
        match r {
            Some(line) => first_line(s@) == Some(line@),
            None => first_line(s@) == None::<Seq<char>>,
        },
{
    let sv = chars_of(s);
    if sv.len() == 0 {
        return None;
    }
    match first_index_exec(sv.as_slice(), '\n') {
        Some(k) => {
            let end = if k > 0 && sv[k - 1] == '\r' {
                k - 1
            } else {
                k
            };
            let line = string_of_range(sv.as_slice(), 0, end);
            assert(line@ =~= strip_cr(sv@.take(k as int)));
            Some(line)
        },
        None => Some(copy_str(s)),
    }
}

/// Removing leading `c` from `s` leaves `s` from its first other character.
pub proof fn lemma_trim_start(s: Seq<char>, c: char, a: int)
    requires
        0 <= a <= s.len(),
        forall|j: int| 0 <= j < a ==> s[j] == c,
        a == s.len() || s[a] != c,
    ensures
        trim_start_char(s, c) == s.skip(a),
    decreases a,
{
    if a == 0 {
        assert(s.skip(0) =~= s);
    } else {
        lemma_trim_start(s.drop_first(), c, a - 1);
        assert(s.drop_first().skip(a - 1) =~= s.skip(a));
    }
}

/// Removing trailing `c` from `s` leaves `s` up to its last other character.
pub proof fn lemma_trim_end(s: Seq<char>, c: char, b: int)
    requires
        0 <= b <= s.len(),
        forall|j: int| b <= j < s.len() ==> s[j] == c,
        b == 0 || s[b - 1] != c,
    ensures
        trim_end_char(s, c) == s.take(b),
    decreases s.len() - b,
{
    if b == s.len() {
        assert(s.take(b) =~= s);
    } else {
        lemma_trim_end(s.drop_last(), c, b);
        assert(s.drop_last().take(b) =~= s.take(b));
    }
}

/// `str::trim_matches(c)`.
pub fn trim_char_exec(s: &str, c: char) -> (out: String)
    ensures
        out@ == trim_char(s@, c),
{
    let sv = chars_of(s);
    let n = sv.len();
    let mut a: usize = 0;
    while a < n && sv[a] == c
        invariant
            n == sv@.len(),
            a <= n,
            forall|j: int| 0 <= j < a ==> sv@[j] == c,
        decreases n - a,
    {
        a += 1;
    }
    let mut b: usize = n;
    while b > a && sv[b - 1] == c
        invariant
            n == sv@.len(),
            a <= b <= n,
            forall|j: int| b <= j < n ==> sv@[j] == c,
        decreases b,
    {
        b -= 1;
    }
    proof {
        lemma_trim_start(sv@, c, a as int);
        let t = sv@.skip(a as int);
        lemma_trim_end(t, c, b - a);
        assert(t.take(b - a) =~= sv@.subrange(a as int, b as int));
    }
    string_of_range(sv.as_slice(), a, b)
}

} // verus!
