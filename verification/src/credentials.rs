//! Login mechanisms and credentials for the AUTH exchange. A plain
//! credential is carried on the wire as the base64 encoding of
//! `username:password`; the encoding itself is the base64 crate's work.
use vstd::prelude::*;

use base64::Engine;

use crate::textbytes::{find_ch, find_char, lemma_find_ch, str_eq, utf8_of};

verus! {

/// A login mechanism advertised or used for AUTH: `PLAIN`, or any other
/// keyword carried as its literal text.
#[derive(Debug, Clone, PartialEq, Eq, Hash)]
pub enum LoginMechanism {
    /// The `PLAIN` mechanism.
    Plain,
    /// Any other mechanism, by its keyword.
    Other(String),
}

impl LoginMechanism {
    /// The keyword of the mechanism.
    pub open spec fn mech_text(&self) -> Seq<char> {
        match self {
            LoginMechanism::Plain => seq!['P', 'L', 'A', 'I', 'N'],
            LoginMechanism::Other(s) => s@,
        }
    }

    /// The mechanism `m` is what the token `t` names: the `PLAIN` keyword
    /// maps to its variant, anything else is carried as text.
    pub open spec fn mech_matches(t: Seq<char>, m: LoginMechanism) -> bool {
        if t == seq!['P', 'L', 'A', 'I', 'N'] {
            m == LoginMechanism::Plain
        } else {
            m matches LoginMechanism::Other(s) && s@ == t
        }
    }

    /// Reads one mechanism token.
    pub fn parse(token: &str) -> (m: Self)
        ensures
            Self::mech_matches(token@, m),
    {
        proof {
            reveal_strlit("PLAIN");
            assert("PLAIN"@ =~= seq!['P', 'L', 'A', 'I', 'N']);
        }
        if str_eq(token, "PLAIN") {
            LoginMechanism::Plain
        } else {
            LoginMechanism::Other(token.to_owned())
        }
    }

    /// The keyword of the mechanism, as text.
    pub fn mech_str(&self) -> (r: &str)
        ensures
            r@ == self.mech_text(),
    {
        match self {
            LoginMechanism::Plain => {
                proof {
                    reveal_strlit("PLAIN");
                    assert("PLAIN"@ =~= seq!['P', 'L', 'A', 'I', 'N']);
                }
                "PLAIN"
            },
            LoginMechanism::Other(s) => s.as_str(),
        }
    }

    /// Reads a list of mechanism tokens, one mechanism per token.
    pub fn from_iter(mechanisms: &Vec<String>) -> (r: Vec<LoginMechanism>)
        ensures
            r@.len() == mechanisms@.len(),
            forall|k: int|
                0 <= k < r@.len() ==> Self::mech_matches(
                    mechanisms.deep_view()[k],
                    #[trigger] r@[k],
                ),
    {
        let n = mechanisms.len();
        let mut out: Vec<LoginMechanism> = Vec::new();
        let mut k: usize = 0;
        while k < n
            invariant
                0 <= k <= n == mechanisms@.len(),
                out@.len() == k,
                forall|j: int|
                    0 <= j < k ==> Self::mech_matches(
                        mechanisms.deep_view()[j],
                        #[trigger] out@[j],
                    ),
            decreases n - k,
        {
            let m = Self::parse(mechanisms[k].as_str());
            out.push(m);
            k = k + 1;
        }
        out
    }

    /// The keywords of the mechanisms from `k` on, joined by single spaces.
    pub open spec fn mechs_joined(ms: Seq<LoginMechanism>, k: int) -> Seq<char>
        decreases ms.len() - k,
    {
        if k < 0 || k >= ms.len() {
            Seq::empty()
        } else if k == ms.len() - 1 {
            ms[k].mech_text()
        } else {
            ms[k].mech_text() + seq![' '] + Self::mechs_joined(ms, k + 1)
        }
    }

    /// Renders a list of mechanisms as their keywords joined by single
    /// spaces.
    pub fn format_iter(iter: &Vec<LoginMechanism>) -> (r: String)
        ensures
            r@ == Self::mechs_joined(iter@, 0),
    {
        let n = iter.len();
        let mut out = String::new();
        let mut k: usize = 0;
        while k < n
            invariant
                0 <= k <= n == iter@.len(),
                out@ + Self::mechs_joined(iter@, k as int) == Self::mechs_joined(iter@, 0),
            decreases n - k,
        {
            out.append(iter[k].mech_str());
            if k + 1 != n {
                out.append(" ");
            }
            proof {
                reveal_strlit(" ");
                assert(" "@ =~= seq![' ']);
                assert(out@ + Self::mechs_joined(iter@, k + 1) =~= Self::mechs_joined(
                    iter@,
                    0,
                ));
            }
            k = k + 1;
        }
        proof {
            assert(out@ =~= Self::mechs_joined(iter@, 0));
        }
        out
    }
}

/// A failure while encoding or decoding credentials.
#[derive(Debug, Clone, PartialEq, Eq)]
pub enum CredentialError {
    /// The carried value is not valid base64.
    Base64Error,
    /// The decoded payload does not have the expected shape.
    InvalidCredentials(&'static str),
    /// The decoded payload is not UTF-8 text.
    Utf8Error,
    /// The mechanism has no encoding implemented here.
    UnsupportedLoginMechanism(LoginMechanism),
}

/// A credential as the user states it.
#[derive(Debug, Clone, PartialEq, Eq)]
pub enum Credentials {
    /// A username and password for the `PLAIN` mechanism.
    Plain {
        /// The username.
        username: String,
        /// The password.
        password: String,
    },
    /// A credential for any other mechanism, carried opaquely.
    Other {
        /// The mechanism's keyword.
        mechanism_name: String,
        /// The mechanism's parameters, already encoded.
        parameters: String,
    },
}

/// A credential as it is carried on the wire: a mechanism tag and the
/// already-encoded value.
#[derive(Debug, Clone, PartialEq, Eq)]
pub struct CredentialValue {
    /// The mechanism the value is encoded for.
    pub login_mechanism: LoginMechanism,
    /// The encoded value.
    pub value: String,
}

/// The name of what the base64 crate's standard padded engine returns for
/// the given bytes.
pub uninterp spec fn b64_of(bytes: Seq<u8>) -> Seq<char>;

/// The error type of base64 decoding, opaque to this crate.
#[verifier::external_type_specification]
#[verifier::external_body]
pub struct ExDecodeError(base64::DecodeError);

/// Relies on the standard padded engine's `encode`: the result depends on
/// the input bytes alone, and is four characters for every three bytes,
/// rounded up.
#[verifier::external_body]
fn b64_encode(data: &[u8]) -> (r: String)
    requires
        4 * ((data@.len() + 2) / 3) <= usize::MAX,
    ensures
        r@ == b64_of(data@),
        r@.len() == 4 * ((data@.len() + 2) / 3),
{
    base64::engine::general_purpose::STANDARD.encode(data)
}

/// Relies on the standard padded engine's `decode`: it inverts `encode`, so
/// on the encoding of any byte sequence it returns exactly that sequence.
#[verifier::external_body]
fn b64_decode(data: &str) -> (r: Result<Vec<u8>, base64::DecodeError>)
    ensures
        forall|b: Seq<u8>| data@ == #[trigger] b64_of(b) ==> r is Ok && r->Ok_0@ == b,
{
    base64::engine::general_purpose::STANDARD.decode(data.as_bytes())
}

impl Credentials {
    /// The `username:password` payload of a plain credential; empty for any
    /// other mechanism.
    pub open spec fn spec_plain_text(&self) -> Seq<char> {
        match self {
            Credentials::Plain { username, password } => username@ + seq![':'] + password@,
            Credentials::Other { .. } => Seq::empty(),
        }
    }

    /// Encodes the credential for the wire. Only the `PLAIN` mechanism has
    /// an encoding here: the base64 of `username:password`.
    pub fn to_value(&self) -> (r: Result<CredentialValue, CredentialError>)
        requires
            4 * ((utf8_of(self.spec_plain_text()).len() + 2) / 3) <= usize::MAX,
        ensures
            match self {
                Credentials::Plain { username, password } => {
                    &&& r matches Ok(cv)
                    &&& cv.login_mechanism == LoginMechanism::Plain
                    &&& cv.value@ == b64_of(utf8_of(username@ + seq![':'] + password@))
                },
                Credentials::Other { mechanism_name, .. } => {
                    &&& r matches Err(CredentialError::UnsupportedLoginMechanism(m))
                    &&& m matches LoginMechanism::Other(nm) && nm@ == mechanism_name@
                },
            },
    {
        match self {
            Credentials::Plain { username, password } => {
                let mut user_name_pass = username.clone();
                user_name_pass.append(":");
                user_name_pass.append(password.as_str());
                proof {
                    reveal_strlit(":");
                    assert(user_name_pass@ =~= username@ + seq![':'] + password@);
                }
                let base64 = b64_encode(user_name_pass.as_str().as_bytes());
                Ok(CredentialValue { login_mechanism: LoginMechanism::Plain, value: base64 })
            },
            Credentials::Other { mechanism_name, .. } => {
                Err(
                    CredentialError::UnsupportedLoginMechanism(
                        LoginMechanism::Other(mechanism_name.clone()),
                    ),
                )
            },
        }
    }
}

impl CredentialValue {
    /// The AUTH argument the credential renders to: the mechanism keyword,
    /// a space, and the encoded value.
    pub open spec fn wire_text(&self) -> Seq<char> {
        self.login_mechanism.mech_text() + seq![' '] + self.value@
    }

    /// Renders the credential as [`CredentialValue::wire_text`].
    pub fn to_line(&self) -> (r: String)
        ensures
            r@ == self.wire_text(),
    {
        let mut out = String::new();
        out.append(self.login_mechanism.mech_str());
        out.append(" ");
        out.append(self.value.as_str());
        proof {
            reveal_strlit(" ");
            assert(out@ =~= self.wire_text());
        }
        out
    }

    /// Decodes the credential from the wire. Only the `PLAIN` mechanism is
    /// decoded here: the base64 payload is `username:password`, and the
    /// password is the second colon-separated field. Decoding the encoding
    /// of any colon-free username and password yields them back.
    pub fn to_credentials(&self) -> (r: Result<Credentials, CredentialError>)
        ensures
            self.login_mechanism matches LoginMechanism::Other(_) ==> r == Err::<
                Credentials,
                _,
            >(CredentialError::UnsupportedLoginMechanism(self.login_mechanism)),
            self.login_mechanism is Plain ==> match r {
                Ok(c) => c is Plain,
                Err(e) => e != CredentialError::UnsupportedLoginMechanism(self.login_mechanism),
            },
            forall|u: Seq<char>, p: Seq<char>|
                {
                    (self.login_mechanism is Plain && self.value@ == #[trigger] b64_of(
                        utf8_of(u + seq![':'] + p),
                    ) && (forall|k: int| 0 <= k < u.len() ==> u[k] != ':') && (forall|k: int|
                        0 <= k < p.len() ==> p[k] != ':')) ==> (r matches Ok(
                        Credentials::Plain { username, password },
                    ) && username@ == u && password@ == p)
                },
    {
        proof {
            broadcast use vstd::utf8::encode_utf8_valid_utf8;

        }
        match &self.login_mechanism {
            LoginMechanism::Other(s) => {
                Err(
                    CredentialError::UnsupportedLoginMechanism(
                        LoginMechanism::Other(s.clone()),
                    ),
                )
            },
            LoginMechanism::Plain => {
                let decoded = match b64_decode(self.value.as_str()) {
                    Ok(v) => v,
                    Err(_) => {
                        return Err(CredentialError::Base64Error);
                    },
                };
                let text = match core::str::from_utf8(decoded.as_slice()) {
                    Ok(t) => t,
                    Err(_) => {
                        return Err(CredentialError::Utf8Error);
                    },
                };
                let n = text.unicode_len();
                let c1 = find_char(text, 0, ':');
                if c1 == n {
                    proof {
                        lemma_find_ch(text@, 0, ':');
                        assert forall|u: Seq<char>, p: Seq<char>|
                            self.value@ == #[trigger] b64_of(utf8_of(u + seq![':'] + p)) && (
                            forall|k: int| 0 <= k < u.len() ==> u[k] != ':') implies false by {
                            assert(decoded@ == utf8_of(u + seq![':'] + p));
                            lemma_text_shape(text@, decoded@, u, p);
                            assert(text@[u.len() as int] == ':');
                            assert(u.len() < text@.len());
                        }
                    }
                    return Err(CredentialError::InvalidCredentials("Password not found"));
                }
                let c2 = find_char(text, c1 + 1, ':');
                let username = text.substring_char(0, c1).to_owned();
                let password = text.substring_char(c1 + 1, c2).to_owned();
                proof {
                    assert forall|u: Seq<char>, p: Seq<char>|
                        (self.value@ == #[trigger] b64_of(utf8_of(u + seq![':'] + p)) && (forall|
                            k: int,
                        | 0 <= k < u.len() ==> u[k] != ':') && (forall|k: int|
                            0 <= k < p.len() ==> p[k] != ':')) implies (username@ == u && password@
                        == p) by {
                        assert(decoded@ == utf8_of(u + seq![':'] + p));
                        lemma_text_shape(text@, decoded@, u, p);
                        lemma_find_ch(text@, 0, ':');
                        assert(text@[u.len() as int] == ':');
                        assert(find_ch(text@, 0, ':') == u.len());
                        lemma_find_ch(text@, u.len() as int + 1, ':');
                        assert(find_ch(text@, u.len() as int + 1, ':') == text@.len());
                        assert(username@ =~= u);
                        assert(password@ =~= p);
                    }
                }
                Ok(Credentials::Plain { username, password })
            },
        }
    }
}

/// When the decoded bytes are the encoding of `u`, a colon, and `p`, the
/// decoded text is exactly those characters.
proof fn lemma_text_shape(t: Seq<char>, decoded: Seq<u8>, u: Seq<char>, p: Seq<char>)
    requires
        utf8_of(t) == decoded,
        decoded == utf8_of(u + seq![':'] + p),
    ensures
        t == u + seq![':'] + p,
{
    vstd::utf8::encode_utf8_decode_utf8(t);
    vstd::utf8::encode_utf8_decode_utf8(u + seq![':'] + p);
}

} // verus!
