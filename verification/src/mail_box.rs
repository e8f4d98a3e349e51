//! Mailboxes: an optional display name plus one owned address, built by the
//! grammar parser from `name-addr` or bare `addr-spec` text.
use vstd::prelude::*;
use vstd::string::StringSliceAdditionalSpecFns;

use crate::email_address::EmailAddress;
use crate::grammar::{lemma_mailbox_ascii, read_mailbox, spec_mailbox};
use crate::textbytes::{ascii_chars_of, ascii_to_string, utf8_of};

verus! {

/// A grammar-parse failure, with the text that failed where it is owned.
#[derive(Debug, Clone, PartialEq, Eq)]
pub struct InvalidMailBox {
    /// The text that failed to parse.
    pub ctx: Option<String>,
}

/// The raw decomposition the grammar parser yields: a display name, where
/// the text had one, and the local part and domain as owned strings.
#[derive(Debug, Clone, PartialEq, Eq, Hash)]
pub struct RawMailBox {
    /// The display name, quotes stripped, words joined by single spaces.
    pub display_name: Option<String>,
    /// The local part; a quoted local part keeps its quotes.
    pub local: String,
    /// The domain; a domain literal keeps its brackets.
    pub domain: String,
}

impl RawMailBox {
    /// `raw` spells exactly the pieces of the successful mailbox parse of `b`.
    pub open spec fn matches_parse(&self, b: Seq<u8>) -> bool {
        &&& spec_mailbox(b) matches Some((name, local, domain))
        &&& self.local@ == ascii_chars_of(local)
        &&& self.domain@ == ascii_chars_of(domain)
        &&& match (self.display_name, name) {
            (Some(v), Some(sv)) => v@ == ascii_chars_of(sv),
            (None, None) => true,
            _ => false,
        }
    }

    /// Parses a whole text as a `mailbox`: a `name-addr`, or a bare
    /// `addr-spec` without display name.
    pub fn parse(value: &str) -> (r: Result<RawMailBox, InvalidMailBox>)
        ensures
            match r {
                Ok(raw) => raw.matches_parse(utf8_of(value@)),
                Err(e) => spec_mailbox(utf8_of(value@)) is None && (e.ctx matches Some(c) && c@
                    == value@),
            },
    {
        match read_mailbox(value.as_bytes()) {
            Some((name, local, domain)) => {
                proof {
                    lemma_mailbox_ascii(utf8_of(value@));
                }
                let display_name = match name {
                    Some(v) => Some(ascii_to_string(v.as_slice())),
                    None => None,
                };
                Ok(
                    RawMailBox {
                        display_name,
                        local: ascii_to_string(local.as_slice()),
                        domain: ascii_to_string(domain.as_slice()),
                    },
                )
            },
            None => Err(InvalidMailBox { ctx: Some(value.to_owned()) }),
        }
    }
}

/// An optional display name plus one owned address.
#[derive(Debug, Clone, PartialEq, Eq, Hash)]
pub struct MailBox {
    /// The optional display name of the mailbox.
    pub name: Option<String>,
    /// The email address of the mailbox.
    pub email: EmailAddress,
}

impl MailBox {
    /// A mailbox is well-formed when its address is.
    pub open spec fn wf(&self) -> bool {
        self.email.wf()
    }

    /// Creates a new mailbox from the given name and address.
    pub fn new(name: Option<String>, email: EmailAddress) -> (m: Self)
        ensures
            m.name == name,
            m.email == email,
    {
        Self { name, email }
    }

    /// Builds a mailbox from a raw decomposition. The grammar has already
    /// checked its pieces, so the address is assembled without validation.
    pub fn from_raw(raw: RawMailBox) -> (m: Self)
        ensures
            m.wf(),
            m.name == raw.display_name,
            m.email.local_bytes() == utf8_of(raw.local@),
            m.email.domain_bytes() == utf8_of(raw.domain@),
            m.email.text() == raw.local@ + seq!['@'] + raw.domain@,
    {
        let email = EmailAddress::new_unchecked_from_parts(raw.local.as_str(), raw.domain.as_str());
        proof {
            assert(email.local_bytes() =~= utf8_of(raw.local@));
            assert(email.domain_bytes() =~= utf8_of(raw.domain@));
        }
        MailBox { name: raw.display_name, email }
    }

    /// The mailbox `m` is what parsing the text with bytes `b` yields.
    pub open spec fn parses_to(m: &MailBox, b: Seq<u8>) -> bool {
        &&& spec_mailbox(b) matches Some((name, local, domain))
        &&& m.email.local_bytes() == local
        &&& m.email.domain_bytes() == domain
        &&& match (m.name, name) {
            (Some(v), Some(sv)) => v@ == ascii_chars_of(sv),
            (None, None) => true,
            _ => false,
        }
    }

    /// Parses a whole text as a `mailbox` and assembles the address from
    /// the pieces.
    pub fn parse(value: &str) -> (r: Result<MailBox, InvalidMailBox>)
        ensures
            match r {
                Ok(m) => Self::parses_to(&m, utf8_of(value@)) && m.wf(),
                Err(e) => spec_mailbox(utf8_of(value@)) is None && (e.ctx matches Some(c) && c@
                    == value@),
            },
    {
        let raw = match RawMailBox::parse(value) {
            Ok(raw) => raw,
            Err(e) => {
                return Err(e);
            },
        };
        proof {
            lemma_mailbox_ascii(utf8_of(value@));
            let (_name, local, domain) = spec_mailbox(utf8_of(value@))->Some_0;
            crate::textbytes::lemma_ascii_bytes_decode(local);
            crate::textbytes::lemma_ascii_bytes_decode(domain);
            vstd::utf8::decode_utf8_encode_utf8(local);
            vstd::utf8::decode_utf8_encode_utf8(domain);
            vstd::utf8::encode_utf8_decode_utf8(ascii_chars_of(local));
            vstd::utf8::encode_utf8_decode_utf8(ascii_chars_of(domain));
        }
        Ok(Self::from_raw(raw))
    }

    /// The local part of the mailbox's address.
    pub fn get_local(&self) -> (r: &str)
        requires
            self.wf(),
        ensures
            utf8_of(r@) == self.email.local_bytes(),
    {
        self.email.get_local()
    }

    /// The domain of the mailbox's address.
    pub fn get_domain(&self) -> (r: &str)
        requires
            self.wf(),
        ensures
            utf8_of(r@) == self.email.domain_bytes(),
    {
        self.email.get_domain()
    }

    /// The display name of the mailbox, if it has one.
    pub fn get_name(&self) -> (r: Option<&str>)
        ensures
            match r {
                Some(v) => self.name matches Some(n) && v@ == n@,
                None => self.name is None,
            },
    {
        match &self.name {
            Some(n) => Some(n.as_str()),
            None => None,
        }
    }

    /// The text the mailbox renders to: `name <local@domain>` with a display
    /// name, the bare address without one.
    pub open spec fn display_text(&self) -> Seq<char> {
        match self.name {
            Some(n) => n@ + seq![' ', '<'] + self.email.text() + seq!['>'],
            None => self.email.text(),
        }
    }

    /// Renders the mailbox as [`MailBox::display_text`].
    pub fn to_message(&self) -> (r: String)
        ensures
            r@ == self.display_text(),
    {
        match &self.name {
            Some(n) => {
                let mut out = n.clone();
                out.append(" <");
                out.append(self.email.as_str());
                out.append(">");
                proof {
                    reveal_strlit(" <");
                    reveal_strlit(">");
                    assert(out@ =~= self.display_text());
                }
                out
            },
            None => self.email.as_str().to_owned(),
        }
    }

    /// Takes the mailbox apart into its display name and its address.
    pub fn into_inner(self) -> (r: (Option<String>, EmailAddress))
        ensures
            r.0 == self.name,
            r.1 == self.email,
    {
        (self.name, self.email)
    }
}

} // verus!
