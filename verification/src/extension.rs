//! The EHLO capability model: one reply-line message parses into a typed
//! server extension (SIZE, STARTTLS, AUTH, or a pass-through keyword), and
//! each extension renders back to exactly that message.
use vstd::prelude::*;

use crate::credentials::LoginMechanism;
use crate::textbytes::{ascii_to_string, find_ch, find_char, lemma_find_ch};

verus! {

/// An error while parsing an extension line.
#[derive(Debug, Clone, PartialEq, Eq)]
pub enum ServerExtensionParseError {
    /// A SIZE line whose argument is missing or not an unsigned integer;
    /// carries the whole line.
    InvalidSize(String),
    /// An extension line with no readable shape; carries the whole line.
    InvalidExtension(String),
}

/// A capability a server advertises in its EHLO response.
#[derive(Debug, Clone, PartialEq, Eq)]
pub enum SMTPServerExtension {
    /// The largest message size the server accepts, in bytes.
    Size(usize),
    /// The server offers STARTTLS.
    StartTLS,
    /// The login mechanisms the server accepts.
    Auth(Vec<LoginMechanism>),
    /// Any other capability: its keyword, and its arguments where the line
    /// has any.
    Other {
        /// The capability's keyword.
        name: String,
        /// The rest of the line after the keyword, where there is any.
        value: Option<String>,
    },
}

/// The digits of `t` from `i` on, read as a decimal number on top of `acc`.
pub open spec fn dec_val_from(t: Seq<char>, i: int, acc: int) -> int
    decreases t.len() - i,
    when 0 <= i <= t.len()
{
    if i >= t.len() {
        acc
    } else {
        dec_val_from(t, i + 1, acc * 10 + (crate::statement::digit_val(t[i]) as int))
    }
}

/// Reading more digits on a nonnegative accumulator never shrinks it.
pub proof fn lemma_dec_val_from(t: Seq<char>, i: int, acc: int)
    requires
        0 <= i <= t.len(),
        0 <= acc,
    ensures
        dec_val_from(t, i, acc) >= acc,
    decreases t.len() - i,
{
    if i < t.len() {
        let d = crate::statement::digit_val(t[i]) as int;
        assert(acc * 10 >= acc) by (nonlinear_arith)
            requires
                acc >= 0,
        ;
        lemma_dec_val_from(t, i + 1, acc * 10 + d);
    }
}

/// Every character of `t` from `i` on is an ASCII digit.
pub open spec fn all_digits(t: Seq<char>, i: int) -> bool {
    forall|j: int| i <= j < t.len() ==> crate::statement::is_digit_c(#[trigger] t[j])
}

/// The reading of one unsigned decimal token, as `usize::from_str` reads
/// it: an optional leading `+`, then one or more digits, and a value that
/// fits the machine; anything else is rejected.
pub open spec fn spec_usize_token(t: Seq<char>) -> Option<int> {
    let s: int = if t.len() > 0 && t[0] == '+' {
        1
    } else {
        0
    };
    if t.len() > s && all_digits(t, s) {
        let v = dec_val_from(t, s, 0);
        if v <= usize::MAX {
            Some(v)
        } else {
            None
        }
    } else {
        None
    }
}

/// Reads one unsigned decimal token.
pub fn parse_usize_token(t: &str) -> (r: Option<usize>)
    ensures
        match r {
            Some(v) => spec_usize_token(t@) == Some(v as int),
            None => spec_usize_token(t@) is None,
        },
{
    let n = t.unicode_len();
    let s: usize = if n > 0 && t.get_char(0) == '+' {
        1
    } else {
        0
    };
    if n <= s {
        return None;
    }
    let mut acc: usize = 0;
    let mut i = s;
    while i < n
        invariant
            s <= i <= n == t@.len(),
            s == (if t@.len() > 0 && t@[0] == '+' {
                1int
            } else {
                0int
            }),
            n > s,
            forall|j: int| s <= j < i ==> crate::statement::is_digit_c(#[trigger] t@[j]),
            dec_val_from(t@, s as int, 0) == dec_val_from(t@, i as int, acc as int),
        decreases n - i,
    {
        let c = t.get_char(i);
        if !('0' <= c && c <= '9') {
            assert(!all_digits(t@, s as int));
            return None;
        }
        let d = (c as u8 - 0x30) as usize;
        if acc > usize::MAX / 10 || (acc == usize::MAX / 10 && d > usize::MAX % 10) {
            proof {
                assert(acc * 10 + d > usize::MAX) by (nonlinear_arith)
                    requires
                        acc > usize::MAX / 10 || (acc == usize::MAX / 10 && d > usize::MAX % 10),
                        d < 10,
                        acc >= 0,
                ;
                lemma_dec_val_from(t@, i + 1, acc * 10 + d);
            }
            return None;
        }
        assert(acc * 10 + d <= usize::MAX) by (nonlinear_arith)
            requires
                acc <= usize::MAX / 10,
                !(acc == usize::MAX / 10 && d > usize::MAX % 10),
                d < 10,
                acc >= 0,
        ;
        acc = acc * 10 + d;
        i = i + 1;
    }
    Some(acc)
}

/// The decimal digits of a nonnegative number, most significant first.
pub open spec fn udec(n: int) -> Seq<char>
    decreases n,
{
    if n < 10 {
        seq![((0x30 + if n >= 0 {
            n
        } else {
            0
        }) as u8) as char]
    } else {
        udec(n / 10) + seq![((0x30 + n % 10) as u8) as char]
    }
}

/// Renders a number in decimal.
pub fn udec_string(n: usize) -> (r: String)
    ensures
        r@ == udec(n as int),
{
    let mut rev: Vec<u8> = Vec::new();
    let mut m = n;
    while m >= 10
        invariant
            forall|j: int| 0 <= j < rev@.len() ==> 0x30 <= #[trigger] rev@[j] < 0x3A,
            udec(n as int) == udec(m as int) + rev_digit_chars(rev@),
        decreases m,
    {
        let ghost rev0 = rev@;
        rev.push((0x30 + (m % 10)) as u8);
        proof {
            assert(rev@.drop_last() =~= rev0);
            assert(udec(m as int) =~= udec(m as int / 10) + seq![rev@.last() as char]);
            lemma_rev_step(rev@);
            assert(udec(n as int) =~= udec(m as int / 10) + rev_digit_chars(rev@));
        }
        m = m / 10;
    }
    let ghost rev1 = rev@;
    rev.push((0x30 + (m % 10)) as u8);
    proof {
        assert(rev@.drop_last() =~= rev1);
        assert(udec(m as int) =~= seq![rev@.last() as char]);
        lemma_rev_step(rev@);
        assert(udec(n as int) =~= rev_digit_chars(rev@));
    }
    let k = rev.len();
    let mut out: Vec<u8> = Vec::new();
    let mut i = k;
    while i > 0
        invariant
            0 <= i <= k == rev@.len(),
            forall|j: int| 0 <= j < rev@.len() ==> 0x30 <= #[trigger] rev@[j] < 0x3A,
            out@.len() == k - i,
            forall|j: int| 0 <= j < out@.len() ==> out@[j] == rev@[k - 1 - j],
        decreases i,
    {
        out.push(rev[i - 1]);
        i = i - 1;
    }
    let r = ascii_to_string(out.as_slice());
    proof {
        assert(r@ =~= rev_digit_chars(rev@));
    }
    r
}

/// The characters of the digit bytes `d`, read back to front.
pub open spec fn rev_digit_chars(d: Seq<u8>) -> Seq<char> {
    Seq::new(d.len(), |j: int| d[d.len() - 1 - j] as char)
}

/// Appending a digit byte prepends its character to the reversed reading.
proof fn lemma_rev_step(d: Seq<u8>)
    requires
        d.len() > 0,
    ensures
        rev_digit_chars(d) == seq![d.last() as char] + rev_digit_chars(d.drop_last()),
{
    assert(rev_digit_chars(d) =~= seq![d.last() as char] + rev_digit_chars(d.drop_last()));
}

/// The exact outcome of parsing one extension line `t`:
/// `SIZE <n>` with a well-formed unsigned `n` is the size capability, and
/// any other `SIZE` line is an invalid-size error carrying the line;
/// `STARTTLS` is its own capability; `AUTH` takes every following
/// space-separated token as a mechanism; any other first token passes
/// through as a keyword with the rest of the line as its value.
pub open spec fn ext_parse_result(
    t: Seq<char>,
    r: Result<SMTPServerExtension, ServerExtensionParseError>,
) -> bool {
    let p = find_ch(t, 0, ' ');
    let first = t.subrange(0, p);
    if first == "SIZE"@ {
        if p == t.len() {
            r matches Err(ServerExtensionParseError::InvalidSize(s)) && s@ == t
        } else {
            let second = t.subrange(p + 1, find_ch(t, p + 1, ' '));
            match spec_usize_token(second) {
                Some(v) => r matches Ok(SMTPServerExtension::Size(m)) && m == v,
                None => r matches Err(ServerExtensionParseError::InvalidSize(s)) && s@ == t,
            }
        }
    } else if first == "STARTTLS"@ {
        r == Ok::<SMTPServerExtension, ServerExtensionParseError>(SMTPServerExtension::StartTLS)
    } else if first == "AUTH"@ {
        let toks = if p == t.len() {
            Seq::<Seq<char>>::empty()
        } else {
            split_sp_from(t, p + 1)
        };
        &&& r matches Ok(SMTPServerExtension::Auth(ms))
        &&& ms@.len() == toks.len()
        &&& forall|k: int|
            0 <= k < toks.len() ==> LoginMechanism::mech_matches(toks[k], #[trigger] ms@[k])
    } else {
        &&& r matches Ok(SMTPServerExtension::Other { name, value })
        &&& name@ == first
        &&& if p == t.len() {
            value is None
        } else {
            value matches Some(v) && v@ == t.subrange(p + 1, t.len() as int)
        }
    }
}

/// The pieces of `t` from `start` on, split on every space.
pub open spec fn split_sp_from(t: Seq<char>, start: int) -> Seq<Seq<char>>
    decreases t.len() - start,
    when 0 <= start <= t.len()
    via split_sp_from_dec
{
    let p = find_ch(t, start, ' ');
    if p == t.len() {
        seq![t.subrange(start, t.len() as int)]
    } else {
        seq![t.subrange(start, p)] + split_sp_from(t, p + 1)
    }
}

#[via_fn]
proof fn split_sp_from_dec(t: Seq<char>, start: int) {
    lemma_find_ch(t, start, ' ');
}

/// Splits `s` from the character position `start` on every space, one owned
/// token per piece.
fn split_sp_tokens(s: &str, start: usize) -> (r: Vec<String>)
    requires
        start <= s@.len(),
    ensures
        r@.len() == split_sp_from(s@, start as int).len(),
        forall|k: int| 0 <= k < r@.len() ==> r@[k]@ == split_sp_from(s@, start as int)[k],
{
    let n = s.unicode_len();
    let mut out: Vec<String> = Vec::new();
    let mut cur = start;
    loop
        invariant
            0 <= cur <= n == s@.len(),
            split_sp_from(s@, start as int) == out@.map_values(|x: String| x@) + split_sp_from(
                s@,
                cur as int,
            ),
        decreases n - cur,
    {
        let p = find_char(s, cur, ' ');
        proof {
            lemma_find_ch(s@, cur as int, ' ');
        }
        let ghost out0 = out@;
        out.push(s.substring_char(cur, p).to_owned());
        proof {
            assert(out@.map_values(|x: String| x@) =~= out0.map_values(|x: String| x@) + seq![
                s@.subrange(cur as int, p as int),
            ]);
        }
        if p == n {
            proof {
                assert(split_sp_from(s@, start as int) =~= out@.map_values(|x: String| x@));
            }
            return out;
        }
        proof {
            assert(split_sp_from(s@, start as int) =~= out@.map_values(|x: String| x@)
                + split_sp_from(s@, p + 1));
        }
        cur = p + 1;
    }
}

impl SMTPServerExtension {
    /// Parses one extension line.
    pub fn parse(message: &str) -> (r: Result<SMTPServerExtension, ServerExtensionParseError>)
        ensures
            ext_parse_result(message@, r),
    {
        let n = message.unicode_len();
        let p = find_char(message, 0, ' ');
        let first = message.substring_char(0, p);
        if crate::textbytes::str_eq(first, "SIZE") {
            if p == n {
                return Err(ServerExtensionParseError::InvalidSize(message.to_owned()));
            }
            let q = find_char(message, p + 1, ' ');
            let second = message.substring_char(p + 1, q);
            match parse_usize_token(second) {
                Some(v) => Ok(SMTPServerExtension::Size(v)),
                None => Err(ServerExtensionParseError::InvalidSize(message.to_owned())),
            }
        } else if crate::textbytes::str_eq(first, "STARTTLS") {
            Ok(SMTPServerExtension::StartTLS)
        } else if crate::textbytes::str_eq(first, "AUTH") {
            if p == n {
                Ok(SMTPServerExtension::Auth(Vec::new()))
            } else {
                let tokens = split_sp_tokens(message, p + 1);
                proof {
                    assert(tokens.deep_view() =~= split_sp_from(message@, p + 1));
                }
                let mechanisms = LoginMechanism::from_iter(&tokens);
                Ok(SMTPServerExtension::Auth(mechanisms))
            }
        } else {
            let name = first.to_owned();
            let value = if p == n {
                None
            } else {
                Some(message.substring_char(p + 1, n).to_owned())
            };
            Ok(SMTPServerExtension::Other { name, value })
        }
    }

    /// The line that renders the extension: the inverse of parsing.
    pub open spec fn ext_text(&self) -> Seq<char> {
        match self {
            SMTPServerExtension::Size(n) => "SIZE "@ + udec(*n as int),
            SMTPServerExtension::StartTLS => "STARTTLS"@,
            SMTPServerExtension::Auth(ms) => "AUTH "@ + LoginMechanism::mechs_joined(ms@, 0),
            SMTPServerExtension::Other { name, value } => match value {
                Some(v) => name@ + seq![' '] + v@,
                None => name@,
            },
        }
    }

    /// Renders the extension as its reply-line message.
    pub fn to_message(&self) -> (r: String)
        ensures
            r@ == self.ext_text(),
    {
        match self {
            SMTPServerExtension::Size(n) => {
                let mut out = String::new();
                out.append("SIZE ");
                out.append(udec_string(*n).as_str());
                out
            },
            SMTPServerExtension::StartTLS => {
                let mut out = String::new();
                out.append("STARTTLS");
                proof {
                    assert(out@ =~= "STARTTLS"@);
                }
                out
            },
            SMTPServerExtension::Auth(ms) => {
                let mut out = String::new();
                out.append("AUTH ");
                out.append(LoginMechanism::format_iter(ms).as_str());
                out
            },
            SMTPServerExtension::Other { name, value } => {
                let mut out = name.clone();
                if let Some(v) = value {
                    out.append(" ");
                    out.append(v.as_str());
                    proof {
                        reveal_strlit(" ");
                        assert(out@ =~= name@ + seq![' '] + v@);
                    }
                }
                out
            },
        }
    }
}

} // verus!
