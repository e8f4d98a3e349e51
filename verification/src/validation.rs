//! The fast, single-pass validator for the two halves of an address.
//!
//! `validate_local_part` and `validate_domain` scan the UTF-8 bytes of one
//! half without building a parse tree. Their contracts pin the exact result,
//! including which error comes back on which input.
use vstd::prelude::*;
use vstd::string::StringSliceAdditionalSpecFns;

use crate::chars::{
    atext_b, dtext_b, is_atext_b, is_dtext_b, is_qtext_b, is_vchar_b, is_wsp_b, qtext_b, vchar_b,
    wsp_b, DOT, ESC, LBRACKET, QUOTE, RBRACKET,
};

verus! {

/// The two halves of an address, used to say which one an error is about.
#[derive(Debug, Clone, Copy, PartialEq, Eq, Structural)]
pub enum EmailPart {
    /// The local part, before the `@`.
    Local,
    /// The domain, after the `@`.
    Domain,
}

/// What went wrong when validating an address.
#[derive(Debug, Clone, Copy, PartialEq, Eq, Structural)]
pub enum EmailErrorMessage {
    /// A character outside its class, with its byte offset.
    InvalidCharacter(char, usize),
    /// A dot-separated domain label is longer than 63 bytes.
    InvalidLengthOfSubDomain,
    /// The local part is empty or longer than 64 bytes.
    InvalidLengthOfUser,
    /// The domain is empty or longer than 255 bytes.
    InvalidLengthOfDomain,
    /// The text has no `@` separator at all.
    MissingAt,
    /// A bracketed domain literal holds a character outside `dtext`.
    InvalidLiteralDomain,
}

/// A validation failure: which half failed, if known, and how.
#[derive(Debug, Clone, Copy, PartialEq, Eq, Structural)]
pub struct InvalidEmailAddress {
    /// The half of the address the error is about, where one is known.
    pub error_part: Option<EmailPart>,
    /// The kind of failure.
    pub error_message: EmailErrorMessage,
}

impl InvalidEmailAddress {
    /// An error attributed to one half of the address.
    pub open spec fn spec_in_part(part: EmailPart, message: EmailErrorMessage) -> Self {
        InvalidEmailAddress { error_part: Some(part), error_message: message }
    }

    /// Builds [`InvalidEmailAddress::spec_in_part`].
    pub fn in_part(part: EmailPart, message: EmailErrorMessage) -> (r: Self)
        ensures
            r == Self::spec_in_part(part, message),
    {
        InvalidEmailAddress { error_part: Some(part), error_message: message }
    }
}

/// The dot-atom-text scan: the first offence in `s` from position `i` on,
/// or `None` when the rest of `s` is dot-atom text. A `.` is legal only when
/// immediately followed by an `atext` byte, which the scan then skips; any
/// other byte must itself be `atext`.
pub open spec fn dot_atom_err(s: Seq<u8>, i: int) -> Option<(u8, int)>
    decreases s.len() - i,
{
    if i < 0 || i >= s.len() {
        None
    } else if s[i] == DOT {
        if i + 1 < s.len() && is_atext_b(s[i + 1]) {
            dot_atom_err(s, i + 2)
        } else {
            Some((DOT, i))
        }
    } else if !is_atext_b(s[i]) {
        Some((s[i], i))
    } else {
        dot_atom_err(s, i + 1)
    }
}

/// The quoted-content scan: the first offence in `s` from position `i` on, or
/// `None` when the rest of `s` is quoted content. A `\` must be followed by a
/// visible ASCII character (a quoted pair); any other byte must be whitespace
/// or `qtext`.
pub open spec fn qcontent_err(s: Seq<u8>, i: int) -> Option<(u8, int)>
    decreases s.len() - i,
{
    if i < 0 || i >= s.len() {
        None
    } else if s[i] == ESC {
        if i + 1 < s.len() && is_vchar_b(s[i + 1]) {
            qcontent_err(s, i + 2)
        } else {
            Some((ESC, i))
        }
    } else if !(is_wsp_b(s[i]) || is_qtext_b(s[i])) {
        Some((s[i], i))
    } else {
        qcontent_err(s, i + 1)
    }
}

/// What dot-atom text demands at position `j`: a `.` must be immediately
/// followed by an `atext` byte, and any other byte must itself be `atext`.
pub open spec fn dot_atom_ok_at(s: Seq<u8>, j: int) -> bool {
    if s[j] == DOT {
        j + 1 < s.len() && is_atext_b(s[j + 1])
    } else {
        is_atext_b(s[j])
    }
}

/// `s` is dot-atom text: every position meets [`dot_atom_ok_at`].
pub open spec fn is_dot_atom_text_b(s: Seq<u8>) -> bool {
    forall|j: int| 0 <= j < s.len() ==> #[trigger] dot_atom_ok_at(s, j)
}

/// The scan finds no offence from `i` on exactly when every position from
/// `i` on meets the dot-atom-text demand.
proof fn lemma_scan_characterized(s: Seq<u8>, i: int)
    requires
        0 <= i <= s.len(),
    ensures
        dot_atom_err(s, i) is None <==> (forall|j: int|
            i <= j < s.len() ==> #[trigger] dot_atom_ok_at(s, j)),
    decreases s.len() - i,
{
    if i >= s.len() {
    } else if s[i] == DOT {
        if i + 1 < s.len() && is_atext_b(s[i + 1]) {
            lemma_scan_characterized(s, i + 2);
            assert(!is_atext_b(DOT));
            if dot_atom_err(s, i) is None {
                assert forall|j: int| i <= j < s.len() implies #[trigger] dot_atom_ok_at(
                    s,
                    j,
                ) by {
                    if j == i {
                        assert(dot_atom_ok_at(s, i));
                    } else if j == i + 1 {
                        // The byte after the dot is atext, hence not a dot.
                        assert(s[j] != DOT);
                    }
                }
            }
        } else {
            assert(!dot_atom_ok_at(s, i));
        }
    } else if !is_atext_b(s[i]) {
        assert(!dot_atom_ok_at(s, i));
    } else {
        lemma_scan_characterized(s, i + 1);
    }
}

/// The dot-atom scan accepts exactly the dot-atom texts: every `.` is
/// immediately followed by an `atext` byte, and every other byte is `atext`.
pub proof fn lemma_dot_atom_text_accepted(s: Seq<u8>)
    ensures
        dot_atom_err(s, 0) is None <==> is_dot_atom_text_b(s),
{
    lemma_scan_characterized(s, 0);
}

/// `[i, j)` is one dot-separated label of `s`: dot-free, and delimited by
/// dots or by the ends of `s`.
pub open spec fn is_label_run(s: Seq<u8>, i: int, j: int) -> bool {
    &&& 0 <= i <= j <= s.len()
    &&& forall|k: int| i <= k < j ==> s[k] != DOT
    &&& (i == 0 || s[i - 1] == DOT)
    &&& (j == s.len() || s[j] == DOT)
}

/// Some dot-separated label of `s` is longer than 63 bytes.
pub open spec fn has_long_label(s: Seq<u8>) -> bool {
    exists|i: int, j: int| is_label_run(s, i, j) && j - i > 63
}

/// The exact result of domain validation on the UTF-8 bytes `s`.
pub open spec fn spec_validate_domain(s: Seq<u8>) -> Result<(), InvalidEmailAddress> {
    if s.len() == 0 || s.len() > 255 {
        Err(InvalidEmailAddress::spec_in_part(
            EmailPart::Domain,
            EmailErrorMessage::InvalidLengthOfDomain,
        ))
    } else if s[0] == LBRACKET && s[s.len() - 1] == RBRACKET {
        if forall|k: int| 1 <= k < s.len() - 1 ==> is_dtext_b(s[k]) {
            Ok(())
        } else {
            Err(InvalidEmailAddress::spec_in_part(
                EmailPart::Domain,
                EmailErrorMessage::InvalidLiteralDomain,
            ))
        }
    } else {
        match dot_atom_err(s, 0) {
            Some((b, p)) => Err(InvalidEmailAddress::spec_in_part(
                EmailPart::Domain,
                EmailErrorMessage::InvalidCharacter(b as char, p as usize),
            )),
            None => {
                if has_long_label(s) {
                    Err(InvalidEmailAddress::spec_in_part(
                        EmailPart::Domain,
                        EmailErrorMessage::InvalidLengthOfSubDomain,
                    ))
                } else {
                    Ok(())
                }
            },
        }
    }
}

/// The exact result of local-part validation on the UTF-8 bytes `s`.
/// Positions inside a quoted local part are relative to the quoted interior.
pub open spec fn spec_validate_local(s: Seq<u8>) -> Result<(), InvalidEmailAddress> {
    if s.len() == 0 || s.len() > 64 {
        Err(InvalidEmailAddress::spec_in_part(
            EmailPart::Local,
            EmailErrorMessage::InvalidLengthOfUser,
        ))
    } else if s.len() >= 2 && s[0] == QUOTE && s[s.len() - 1] == QUOTE {
        if s.len() == 2 {
            Err(InvalidEmailAddress::spec_in_part(
                EmailPart::Local,
                EmailErrorMessage::InvalidLengthOfUser,
            ))
        } else {
            match qcontent_err(s.subrange(1, s.len() - 1), 0) {
                Some((b, p)) => Err(InvalidEmailAddress::spec_in_part(
                    EmailPart::Local,
                    EmailErrorMessage::InvalidCharacter(b as char, p as usize),
                )),
                None => Ok(()),
            }
        }
    } else {
        match dot_atom_err(s, 0) {
            Some((b, p)) => Err(InvalidEmailAddress::spec_in_part(
                EmailPart::Local,
                EmailErrorMessage::InvalidCharacter(b as char, p as usize),
            )),
            None => Ok(()),
        }
    }
}

/// Runs the dot-atom-text scan over `s[from..]`.
fn scan_dot_atom(s: &[u8], from: usize) -> (r: Option<(u8, usize)>)
    requires
        from <= s@.len(),
    ensures
        match r {
            Some((b, p)) => dot_atom_err(s@, from as int) == Some((b, p as int)),
            None => dot_atom_err(s@, from as int) is None,
        },
{
    let n = s.len();
    let mut i = from;
    while i < n
        invariant
            from <= i <= n == s@.len(),
            dot_atom_err(s@, from as int) == dot_atom_err(s@, i as int),
        decreases n - i,
    {
        let b = s[i];
        if b == DOT {
            if i + 1 < n && atext_b(s[i + 1]) {
                i = i + 2;
            } else {
                return Some((DOT, i));
            }
        } else if !atext_b(b) {
            return Some((b, i));
        } else {
            i = i + 1;
        }
    }
    None
}

/// Runs the quoted-content scan over `s[from..to]`, reporting positions
/// relative to `from`.
fn scan_qcontent(s: &[u8], from: usize, to: usize) -> (r: Option<(u8, usize)>)
    requires
        from <= to <= s@.len(),
    ensures
        match r {
            Some((b, p)) => qcontent_err(s@.subrange(from as int, to as int), 0) == Some(
                (b, p as int),
            ),
            None => qcontent_err(s@.subrange(from as int, to as int), 0) is None,
        },
{
    let ghost w = s@.subrange(from as int, to as int);
    let mut i = from;
    while i < to
        invariant
            from <= i <= to <= s@.len(),
            w == s@.subrange(from as int, to as int),
            qcontent_err(w, 0) == qcontent_err(w, i - from),
        decreases to - i,
    {
        let b = s[i];
        assert(w[i - from] == s@[i as int]);
        if b == ESC {
            if i + 1 < to && vchar_b(s[i + 1]) {
                assert(w[i + 1 - from] == s@[i + 1]);
                i = i + 2;
            } else {
                return Some((ESC, i - from));
            }
        } else if !(wsp_b(b) || qtext_b(b)) {
            return Some((b, i - from));
        } else {
            i = i + 1;
        }
    }
    None
}

/// Looks for a dot-separated label longer than 63 bytes.
fn find_long_label(s: &[u8]) -> (r: bool)
    ensures
        r == has_long_label(s@),
{
    let n = s.len();
    let mut start: usize = 0;
    let mut k: usize = 0;
    while k < n
        invariant
            0 <= start <= k <= n == s@.len(),
            start == 0 || s@[start - 1] == DOT,
            forall|m: int| start <= m < k ==> s@[m] != DOT,
            forall|i: int, j: int| is_label_run(s@, i, j) && j < k ==> j - i <= 63,
        decreases n - k,
    {
        if s[k] == DOT {
            if k - start > 63 {
                assert(is_label_run(s@, start as int, k as int));
                return true;
            }
            start = k + 1;
        }
        k = k + 1;
    }
    if n - start > 63 {
        assert(is_label_run(s@, start as int, n as int));
        return true;
    }
    assert(!has_long_label(s@)) by {
        if has_long_label(s@) {
            let (i, j) = choose|i: int, j: int| is_label_run(s@, i, j) && j - i > 63;
            if j < n {
                assert(j - i <= 63);
            } else {
                // A run ending at the end of the text coincides with the last
                // run the loop tracked, which was just checked.
                if i < start {
                    assert(s@[start - 1] == DOT);
                } else if i > start {
                    assert(s@[i - 1] != DOT);
                }
            }
        }
    }
    false
}

/// Validates the domain half of an address, given as its UTF-8 bytes:
/// 1 to 255 bytes, and either a bracketed literal whose interior is all
/// `dtext`, or dot-atom text whose labels are at most 63 bytes.
pub fn validate_domain_bytes(s: &[u8]) -> (r: Result<(), InvalidEmailAddress>)
    ensures
        r == spec_validate_domain(s@),
{
    let n = s.len();
    if n == 0 || n > 255 {
        return Err(InvalidEmailAddress::in_part(
            EmailPart::Domain,
            EmailErrorMessage::InvalidLengthOfDomain,
        ));
    }
    if s[0] == LBRACKET && s[n - 1] == RBRACKET {
        let mut k: usize = 1;
        while k < n - 1
            invariant
                1 <= k <= n - 1,
                n == s@.len(),
                n <= 255,
                s@[0] == LBRACKET,
                s@[s@.len() - 1] == RBRACKET,
                forall|m: int| 1 <= m < k ==> is_dtext_b(s@[m]),
            decreases n - k,
        {
            if !dtext_b(s[k]) {
                assert(!(forall|m: int| 1 <= m < s@.len() - 1 ==> is_dtext_b(s@[m])));
                return Err(InvalidEmailAddress::in_part(
                    EmailPart::Domain,
                    EmailErrorMessage::InvalidLiteralDomain,
                ));
            }
            k = k + 1;
        }
        return Ok(());
    }
    match scan_dot_atom(s, 0) {
        Some((b, p)) => Err(InvalidEmailAddress::in_part(
            EmailPart::Domain,
            EmailErrorMessage::InvalidCharacter(b as char, p),
        )),
        None => {
            if find_long_label(s) {
                Err(InvalidEmailAddress::in_part(
                    EmailPart::Domain,
                    EmailErrorMessage::InvalidLengthOfSubDomain,
                ))
            } else {
                Ok(())
            }
        },
    }
}

/// Validates the local half of an address, given as its UTF-8 bytes:
/// 1 to 64 bytes, and either a quoted string whose interior is quoted
/// content, or dot-atom text.
pub fn validate_local_bytes(s: &[u8]) -> (r: Result<(), InvalidEmailAddress>)
    ensures
        r == spec_validate_local(s@),
{
    let n = s.len();
    if n == 0 || n > 64 {
        return Err(InvalidEmailAddress::in_part(
            EmailPart::Local,
            EmailErrorMessage::InvalidLengthOfUser,
        ));
    }
    if n >= 2 && s[0] == QUOTE && s[n - 1] == QUOTE {
        if n == 2 {
            return Err(InvalidEmailAddress::in_part(
                EmailPart::Local,
                EmailErrorMessage::InvalidLengthOfUser,
            ));
        }
        match scan_qcontent(s, 1, n - 1) {
            Some((b, p)) => Err(InvalidEmailAddress::in_part(
                EmailPart::Local,
                EmailErrorMessage::InvalidCharacter(b as char, p),
            )),
            None => Ok(()),
        }
    } else {
        match scan_dot_atom(s, 0) {
            Some((b, p)) => Err(InvalidEmailAddress::in_part(
                EmailPart::Local,
                EmailErrorMessage::InvalidCharacter(b as char, p),
            )),
            None => Ok(()),
        }
    }
}

/// Validates the domain half of an address.
pub fn validate_domain(domain: &str) -> (r: Result<(), InvalidEmailAddress>)
    ensures
        r == spec_validate_domain(domain.spec_bytes()),
{
    validate_domain_bytes(domain.as_bytes())
}

/// Validates the local half of an address.
pub fn validate_local_part(local: &str) -> (r: Result<(), InvalidEmailAddress>)
    ensures
        r == spec_validate_local(local.spec_bytes()),
{
    validate_local_bytes(local.as_bytes())
}

} // verus!
