//! The address type: one owned text buffer holding `local@domain`, plus the
//! byte offset of the separating `@`.
//!
//! The validating constructor splits at the last `@` (so quoted local parts
//! containing `@` are supported) and runs the fast validator on both halves.
//! The unchecked constructors record what the caller guarantees in their
//! `requires`; they are meant for text already validated by the grammar
//! parser.
use vstd::prelude::*;
use vstd::string::StringSliceAdditionalSpecFns;
use vstd::utf8::{encode_utf8_valid_utf8, is_char_boundary, valid_utf8};

use crate::chars::AT;
use crate::textbytes::{lemma_boundary_after_ascii, lemma_encode_utf8_concat, utf8_of};
use crate::validation::{
    spec_validate_domain, spec_validate_local, validate_domain_bytes, validate_local_bytes,
    EmailErrorMessage, InvalidEmailAddress,
};

verus! {

/// The byte offset of the last `@` in `b`, or `-1` when `b` holds none.
pub open spec fn last_at(b: Seq<u8>) -> int
    decreases b.len(),
{
    if b.len() == 0 {
        -1
    } else if b[b.len() - 1] == AT {
        b.len() - 1
    } else {
        last_at(b.drop_last())
    }
}

/// When `b[i]` is the last `@` of `b`, `last_at` finds it.
pub proof fn lemma_last_at_found(b: Seq<u8>, i: int)
    requires
        0 <= i < b.len(),
        b[i] == AT,
        forall|k: int| i < k < b.len() ==> b[k] != AT,
    ensures
        last_at(b) == i,
    decreases b.len(),
{
    if i < b.len() - 1 {
        lemma_last_at_found(b.drop_last(), i);
    }
}

/// When `b` holds no `@`, `last_at` reports none.
pub proof fn lemma_last_at_none(b: Seq<u8>)
    requires
        forall|k: int| 0 <= k < b.len() ==> b[k] != AT,
    ensures
        last_at(b) == -1,
    decreases b.len(),
{
    if b.len() > 0 {
        lemma_last_at_none(b.drop_last());
    }
}

/// What `last_at` finds is an `@`, and the last one.
pub proof fn lemma_last_at_props(b: Seq<u8>)
    requires
        last_at(b) != -1,
    ensures
        0 <= last_at(b) < b.len(),
        b[last_at(b)] == AT,
        forall|k: int| last_at(b) < k < b.len() ==> b[k] != AT,
    decreases b.len(),
{
    if b.len() > 0 && b[b.len() - 1] != AT {
        lemma_last_at_props(b.drop_last());
        assert forall|k: int| last_at(b) < k < b.len() implies b[k] != AT by {
            if k < b.len() - 1 {
                assert(b.drop_last()[k] == b[k]);
            }
        }
    }
}

/// The exact outcome of validating construction on the UTF-8 bytes `b`:
/// the offset of the separating `@` on success, the error otherwise.
pub open spec fn spec_new(b: Seq<u8>) -> Result<int, InvalidEmailAddress> {
    let i = last_at(b);
    if i == -1 {
        Err(InvalidEmailAddress { error_part: None, error_message: EmailErrorMessage::MissingAt })
    } else if spec_validate_local(b.subrange(0, i)) is Err {
        Err(spec_validate_local(b.subrange(0, i))->Err_0)
    } else if spec_validate_domain(b.subrange(i + 1, b.len() as int)) is Err {
        Err(spec_validate_domain(b.subrange(i + 1, b.len() as int))->Err_0)
    } else {
        Ok(i)
    }
}

/// A validated email address: the owned `local@domain` text and the byte
/// offset of the separating `@`.
///
/// Equality, ordering and hashing go by the full text (and the recorded
/// offset, which the text determines for every validated address).
#[derive(Debug, Clone, PartialEq, Eq, PartialOrd, Ord, Hash)]
pub struct EmailAddress {
    email_address: String,
    at_index: usize,
}

impl EmailAddress {
    /// The owned text as characters.
    pub closed spec fn text(&self) -> Seq<char> {
        self.email_address@
    }

    /// The recorded offset of the separating `@`.
    pub closed spec fn at(&self) -> int {
        self.at_index as int
    }

    /// The owned text as UTF-8 bytes.
    pub open spec fn bytes(&self) -> Seq<u8> {
        utf8_of(self.text())
    }

    /// The bytes of the local part, before the separating `@`.
    pub open spec fn local_bytes(&self) -> Seq<u8> {
        self.bytes().subrange(0, self.at())
    }

    /// The bytes of the domain, after the separating `@`.
    pub open spec fn domain_bytes(&self) -> Seq<u8> {
        self.bytes().subrange(self.at() + 1, self.bytes().len() as int)
    }

    /// Well-formedness: the offset lands on an `@` inside the buffer. Every
    /// constructor establishes it; since `@` is ASCII, the offset is then
    /// always a character boundary of the buffer.
    pub open spec fn wf(&self) -> bool {
        0 <= self.at() < self.bytes().len() && self.bytes()[self.at()] == AT
    }

    /// The address `a` is what validating construction makes of the text `t`.
    pub open spec fn parses_to(t: Seq<char>, a: EmailAddress) -> bool {
        a.text() == t && spec_new(utf8_of(t)) == Ok::<int, InvalidEmailAddress>(a.at())
    }

    /// Creates a new email address, checking for validity: the text must
    /// hold an `@`, and the halves around the last `@` must pass the fast
    /// validator.
    pub fn new(email_address: String) -> (r: Result<Self, InvalidEmailAddress>)
        ensures
            match r {
                Ok(a) => Self::parses_to(email_address@, a) && a.wf(),
                Err(e) => spec_new(utf8_of(email_address@)) == Err::<int, InvalidEmailAddress>(e),
            },
    {
        let at_index = match find_last_at(email_address.as_str()) {
            Some(i) => i,
            None => {
                return Err(
                    InvalidEmailAddress {
                        error_part: None,
                        error_message: EmailErrorMessage::MissingAt,
                    },
                );
            },
        };
        let (local, domain) = split_around_at(email_address.as_str(), at_index);
        if let Err(e) = validate_local_bytes(local.as_bytes()) {
            return Err(e);
        }
        if let Err(e) = validate_domain_bytes(domain.as_bytes()) {
            return Err(e);
        }
        Ok(EmailAddress { email_address, at_index })
    }

    /// Creates a new email address checking only that an `@` is present;
    /// the halves around the last `@` are not validated.
    pub fn new_only_check_for_at(email_address: String) -> (r: Result<Self, InvalidEmailAddress>)
        ensures
            match r {
                Ok(a) => {
                    &&& a.wf()
                    &&& a.text() == email_address@
                    &&& a.at() == last_at(utf8_of(email_address@))
                },
                Err(e) => {
                    &&& last_at(utf8_of(email_address@)) == -1
                    &&& e == (InvalidEmailAddress {
                        error_part: None,
                        error_message: EmailErrorMessage::MissingAt,
                    })
                },
            },
    {
        match find_last_at(email_address.as_str()) {
            Some(at_index) => Ok(EmailAddress { email_address, at_index }),
            None => Err(
                InvalidEmailAddress {
                    error_part: None,
                    error_message: EmailErrorMessage::MissingAt,
                },
            ),
        }
    }

    /// Creates an email address from a text and the offset of its separating
    /// `@`, without any checking. The caller guarantees that the offset is
    /// right; it is meant for text known valid beforehand.
    pub fn new_unchecked_raw(email_address: String, at_index: usize) -> (a: Self)
        requires
            at_index < utf8_of(email_address@).len(),
            utf8_of(email_address@)[at_index as int] == AT,
        ensures
            a.wf(),
            a.text() == email_address@,
            a.at() == at_index,
    {
        EmailAddress { email_address, at_index }
    }

    /// Creates an email address from its two halves, without validating
    /// them. The caller guarantees their validity; it is meant for the
    /// output of the grammar parser.
    pub fn new_unchecked_from_parts(local: &str, domain: &str) -> (a: Self)
        ensures
            a.wf(),
            a.text() == local@ + seq!['@'] + domain@,
            a.bytes() == utf8_of(local@) + seq![AT] + utf8_of(domain@),
            a.at() == utf8_of(local@).len(),
    {
        let at_index = local.as_bytes().len();
        let email_address = combine_parts(local, domain);
        proof {
            lemma_encode_utf8_concat(local@, seq!['@'] + domain@);
            lemma_encode_utf8_concat(seq!['@'], domain@);
            assert(local@ + (seq!['@'] + domain@) =~= local@ + seq!['@'] + domain@);
            assert(utf8_of(seq!['@']) =~= seq![AT]) by {
                vstd::utf8::is_ascii_chars_encode_utf8(seq!['@']);
            }
            assert(utf8_of(email_address@) =~= utf8_of(local@) + seq![AT] + utf8_of(domain@));
        }
        EmailAddress { email_address, at_index }
    }

    /// The two pieces the buffer splits into at the recorded offset: the
    /// local part, and the domain still carrying its leading `@`.
    pub fn as_parts(&self) -> (r: (&str, &str))
        requires
            self.wf(),
        ensures
            utf8_of(r.0@) == self.local_bytes(),
            utf8_of(r.1@) == seq![AT] + self.domain_bytes(),
    {
        let s = self.email_address.as_str();
        proof {
            lemma_at_is_boundary(s, self.at());
        }
        let r = s.split_at(self.at_index);
        proof {
            assert(seq![AT] + self.domain_bytes() =~= self.bytes().subrange(
                self.at(),
                self.bytes().len() as int,
            ));
        }
        r
    }

    /// The two pieces of [`EmailAddress::as_parts`], cloned into owned strings.
    pub fn parts_owned(&self) -> (r: (String, String))
        requires
            self.wf(),
        ensures
            utf8_of(r.0@) == self.local_bytes(),
            utf8_of(r.1@) == seq![AT] + self.domain_bytes(),
    {
        let (local, rest) = self.as_parts();
        (local.to_owned(), rest.to_owned())
    }

    /// The local part of the address, before the separating `@`.
    #[inline]
    pub fn get_local(&self) -> (r: &str)
        requires
            self.wf(),
        ensures
            utf8_of(r@) == self.local_bytes(),
    {
        split_around_at(self.email_address.as_str(), self.at_index).0
    }

    /// The domain of the address, after the separating `@`.
    #[inline]
    pub fn get_domain(&self) -> (r: &str)
        requires
            self.wf(),
        ensures
            utf8_of(r@) == self.domain_bytes(),
    {
        split_around_at(self.email_address.as_str(), self.at_index).1
    }

    /// The whole address text.
    pub fn as_str(&self) -> (r: &str)
        ensures
            r@ == self.text(),
    {
        self.email_address.as_str()
    }
}

/// Splits `s` into the half before the `@` at byte offset `i` and the half
/// after it.
fn split_around_at(s: &str, i: usize) -> (r: (&str, &str))
    requires
        i < s.spec_bytes().len(),
        s.spec_bytes()[i as int] == AT,
    ensures
        utf8_of(r.0@) == s.spec_bytes().subrange(0, i as int),
        utf8_of(r.1@) == s.spec_bytes().subrange(i + 1, s.spec_bytes().len() as int),
{
    let n = s.as_bytes().len();
    assert(i < n);
    proof {
        lemma_at_is_boundary(s, i as int);
        encode_utf8_valid_utf8(s@);
        lemma_boundary_after_ascii(s.spec_bytes(), i as int);
    }
    let local = s.split_at(i).0;
    let domain = s.split_at(i + 1).1;
    (local, domain)
}

/// The byte offset `i` of an `@` in `s` is a character boundary.
proof fn lemma_at_is_boundary(s: &str, i: int)
    requires
        0 <= i < s.spec_bytes().len(),
        s.spec_bytes()[i] == AT,
    ensures
        is_char_boundary(s.spec_bytes(), i),
        valid_utf8(s.spec_bytes()),
{
    encode_utf8_valid_utf8(s@);
    vstd::utf8::is_char_boundary_iff_not_is_continuation_byte(s.spec_bytes(), i);
}

/// The byte offset of the last `@` in `s`, if any.
fn find_last_at(s: &str) -> (r: Option<usize>)
    ensures
        match r {
            Some(i) => {
                &&& last_at(s.spec_bytes()) == i
                &&& i < s.spec_bytes().len()
                &&& s.spec_bytes()[i as int] == AT
            },
            None => last_at(s.spec_bytes()) == -1,
        },
{
    let b = s.as_bytes();
    let n = b.len();
    let mut j = n;
    while j > 0
        invariant
            0 <= j <= n == b@.len(),
            b@ == s.spec_bytes(),
            forall|k: int| j <= k < n ==> b@[k] != AT,
        decreases j,
    {
        if b[j - 1] == AT {
            proof {
                lemma_last_at_found(b@, j - 1);
            }
            return Some(j - 1);
        }
        j = j - 1;
    }
    proof {
        lemma_last_at_none(b@);
    }
    None
}

/// Concatenates a local part and a domain around an `@`.
fn combine_parts(local: &str, domain: &str) -> (r: String)
    ensures
        r@ == local@ + seq!['@'] + domain@,
{
    let mut email_address = local.to_owned();
    email_address.append("@");
    email_address.append(domain);
    proof {
        reveal_strlit("@");
        assert(local@ + "@"@ + domain@ =~= local@ + seq!['@'] + domain@);
    }
    email_address
}

/// Round trip: every address the validating constructor accepts splits into
/// a local part and a domain that reassemble to exactly the original text,
/// and each half passes its validator again on its own.
pub proof fn lemma_round_trip(a: EmailAddress)
    requires
        spec_new(a.bytes()) == Ok::<int, InvalidEmailAddress>(a.at()),
    ensures
        a.local_bytes() + seq![AT] + a.domain_bytes() == a.bytes(),
        spec_validate_local(a.local_bytes()) is Ok,
        spec_validate_domain(a.domain_bytes()) is Ok,
{
    lemma_last_at_props(a.bytes());
    assert(a.local_bytes() + seq![AT] + a.domain_bytes() =~= a.bytes());
}

/// Idempotence: two addresses built by the validating constructor from the
/// same text hold the same text and the same offset.
pub proof fn lemma_parse_idempotent(t: Seq<char>, a1: EmailAddress, a2: EmailAddress)
    requires
        EmailAddress::parses_to(t, a1),
        EmailAddress::parses_to(t, a2),
    ensures
        a1.text() == a2.text(),
        a1.at() == a2.at(),
{
}

/// A text without any `@` is rejected with the missing-`@` error.
pub proof fn lemma_missing_at(t: Seq<char>)
    requires
        forall|k: int| 0 <= k < utf8_of(t).len() ==> utf8_of(t)[k] != AT,
    ensures
        spec_new(utf8_of(t)) == Err::<int, InvalidEmailAddress>(
            InvalidEmailAddress {
                error_part: None,
                error_message: EmailErrorMessage::MissingAt,
            },
        ),
{
    lemma_last_at_none(utf8_of(t));
}

/// Construction splits at the last `@`: no byte after the recorded offset
/// is an `@`.
pub proof fn lemma_splits_at_last_at(b: Seq<u8>, i: int)
    requires
        spec_new(b) == Ok::<int, InvalidEmailAddress>(i),
    ensures
        0 <= i < b.len(),
        b[i] == AT,
        forall|k: int| i < k < b.len() ==> b[k] != AT,
{
    lemma_last_at_props(b);
}

} // verus!
