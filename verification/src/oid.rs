//! Git object ids, held as their hexadecimal text.

use vstd::prelude::*;

use crate::error::ProxyError;

verus! {

/// `git2::Error`, the error that libgit2 reports.
#[verifier::external_type_specification]
#[verifier::external_body]
pub struct ExGitError(git2::Error);

/// A lowercase hexadecimal digit.
pub open spec fn is_lower_hex(c: char) -> bool {
    ('0' <= c && c <= '9') || ('a' <= c && c <= 'f')
}

/// A hexadecimal digit of either case.
pub open spec fn is_hex(c: char) -> bool {
    is_lower_hex(c) || ('A' <= c && c <= 'F')
}

/// The text of a SHA-1 object id: 40 lowercase hexadecimal digits.
pub open spec fn is_oid_text(s: Seq<char>) -> bool {
    s.len() == 40 && forall|i: int| 0 <= i < 40 ==> is_lower_hex(#[trigger] s[i])
}

/// The digit in lowercase.
pub open spec fn lower_hex(c: char) -> char {
    if 'A' <= c && c <= 'F' {
        ((c as int) + 32) as char
    } else {
        c
    }
}

/// Text that libgit2 reads as an object id: one to forty hexadecimal digits.
pub open spec fn parses_as_oid(s: Seq<char>) -> bool {
    1 <= s.len() <= 40 && forall|i: int| 0 <= i < s.len() ==> is_hex(#[trigger] s[i])
}

/// The object id that libgit2 reads from `s`: its digits in lowercase,
/// followed by zeros up to forty digits.
pub open spec fn oid_text_of(s: Seq<char>) -> Seq<char> {
    Seq::new(40, |i: int| if i < s.len() { lower_hex(s[i]) } else { '0' })
}

/// A git object id, held as its forty lowercase hexadecimal digits.
#[derive(Debug, PartialEq, Eq)]
pub struct Oid {
    hex: String,
}

impl View for Oid {
    type V = Seq<char>;

    closed spec fn view(&self) -> Seq<char> {
        self.hex@
    }
}

impl Oid {
    #[verifier::type_invariant]
    spec fn well_formed(self) -> bool {
        is_oid_text(self.hex@)
    }

    /// The id made only of zeros (`git2::Oid::zero`).
    pub fn zero() -> (o: Oid)
        ensures
            o@ == Seq::new(40, |i: int| '0'),
    {
        let mut hex = String::new();
        let mut i: usize = 0;
        while i < 40
            invariant
                i <= 40,
                hex@ == Seq::new(i as nat, |k: int| '0'),
            decreases 40 - i,
        {
            crate::text::push_char(&mut hex, '0');
            assert(hex@ =~= Seq::new((i + 1) as nat, |k: int| '0'));
            i += 1;
        }
        assert(is_oid_text(hex@));
        Oid { hex }
    }

    /// Whether this is the id made only of zeros.
    pub fn is_zero(&self) -> (b: bool)
        ensures
            b == (self@ == Seq::new(40, |i: int| '0')),
    {
        let z = Oid::zero();
        self.same_as(&z)
    }

    /// Whether two ids are the same.
    pub fn same_as(&self, other: &Oid) -> (b: bool)
        ensures
            b == (self@ == other@),
    {
        self.hex == other.hex
    }

    /// The forty hexadecimal digits.
    pub fn as_str(&self) -> (s: &str)
        ensures
            s@ == self@,
            is_oid_text(s@),
    {
        proof {
            use_type_invariant(self);
        }
        self.hex.as_str()
    }

    /// Reads an object id from hexadecimal text as `git2::Oid::from_str`
    /// does: one to forty digits of either case, padded with zeros.
    pub fn parse(text: &str) -> (r: Result<Oid, ProxyError>)
        ensures
            match r {
                Ok(o) => parses_as_oid(text@) && o@ == oid_text_of(text@),
                Err(e) => !parses_as_oid(text@) && e is BadOid,
            },
    {
        match git_oid_from_str(text) {
            Ok(o) => Ok(o),
            Err(e) => Err(ProxyError::BadOid(e)),
        }
    }

    /// The text that libgit2 reads as an id gives forty lowercase digits.
    pub proof fn lemma_oid_text_of_is_oid_text(s: Seq<char>)
        requires
            parses_as_oid(s),
        ensures
            is_oid_text(oid_text_of(s)),
    {
        assert forall|i: int| 0 <= i < 40 implies is_lower_hex(#[trigger] oid_text_of(s)[i]) by {
            if i < s.len() {
                assert(is_hex(s[i]));
            }
        }
    }
}

impl Clone for Oid {
    fn clone(&self) -> (o: Oid)
        ensures
            o@ == self@,
    {
        proof {
            use_type_invariant(self);
        }
        Oid { hex: self.hex.clone() }
    }
}

/// `git2::Oid::from_str`, with the id taken back as its `Display` text.
///
/// libgit2's `git_oid_fromstrn` accepts text of one to forty characters,
/// each a hexadecimal digit of either case, and zero-fills the rest of the
/// id; `Display` writes the forty digits in lowercase (`git_oid_tostr`).
#[verifier::external_body]
fn git_oid_from_str(text: &str) -> (r: Result<Oid, git2::Error>)
    ensures
        match r {
            Ok(o) => parses_as_oid(text@) && o@ == oid_text_of(text@),
            Err(_) => !parses_as_oid(text@),
        },
{
    git2::Oid::from_str(text).map(|o| Oid { hex: o.to_string() })
}

} // verus!
