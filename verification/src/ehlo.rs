//! The command contract and its EHLO instance: a command associates a wire
//! verb with a client request type and a server response type; the EHLO
//! exchange turns a multi-line reply into a greeting plus typed extensions.
use vstd::prelude::*;

use crate::error::SMTPError;
use crate::extension::{ext_parse_result, spec_usize_token, SMTPServerExtension};
use crate::statement::{MultilineServerResponse, ResponseCode, ServerResponseLine};
use crate::textbytes::{bytes_prefix, find_ch, is_prefix_of, lemma_boundary_after_ascii, utf8_of};
use vstd::string::StringSliceAdditionalSpecFns;

verus! {

/// A command of the protocol: a wire verb, the data a server reads from a
/// client line, and the response it answers with.
pub trait SMTPCommand: Sized {
    /// What a server reads from a client's command line.
    type ClientCommand;

    /// What a server answers a client with.
    type ServerResponse;

    /// The UTF-8 bytes of the command's wire verb.
    spec fn command_bytes() -> Seq<u8>;

    /// The command's wire verb.
    fn command() -> (r: &'static str)
        ensures
            utf8_of(r@) == Self::command_bytes(),
    ;

    /// Whether a line is this command: it starts with the verb.
    fn can_handle(command: &str) -> (r: bool)
        ensures
            r == is_prefix_of(Self::command_bytes(), utf8_of(command@)),
    {
        bytes_prefix(Self::command().as_bytes(), command.as_bytes())
    }
}

/// The data carried by an EHLO command: the client's hostname.
#[derive(Debug, Clone, PartialEq, Eq)]
pub struct EhloCommandData {
    /// The hostname the client announces.
    pub client_hostname: String,
}

impl From<String> for EhloCommandData {
    /// Wraps a hostname.
    fn from(value: String) -> (r: Self) {
        EhloCommandData { client_hostname: value }
    }
}

impl vstd::std_specs::convert::FromSpecImpl<String> for EhloCommandData {
    open spec fn obeys_from_spec() -> bool {
        true
    }

    open spec fn from_spec(value: String) -> Self {
        EhloCommandData { client_hostname: value }
    }
}

impl EhloCommandData {
    /// Takes the hostname back out.
    pub fn into_hostname(self) -> (r: String)
        ensures
            r == self.client_hostname,
    {
        self.client_hostname
    }
}

/// What an EHLO exchange yields for the client.
#[derive(Debug, Clone, PartialEq, Eq)]
pub enum EhloResponse {
    /// The server refused: the first reply line's code and message.
    Error {
        /// The reply code of the refusal.
        code: ResponseCode,
        /// The message of the refusal.
        message: String,
    },
    /// The server greeted: the greeting line, and one extension per further
    /// line.
    Success {
        /// The greeting: the first line's code and message.
        hello_code: ResponseCode,
        /// The greeting message.
        hello_message: String,
        /// The server's capabilities, one per line after the greeting.
        extensions: Vec<SMTPServerExtension>,
    },
}

/// An extension line that the extension parser accepts: only a `SIZE` line
/// without a well-formed unsigned argument is refused.
pub open spec fn ext_line_ok(t: Seq<char>) -> bool {
    let p = find_ch(t, 0, ' ');
    t.subrange(0, p) == "SIZE"@ ==> (p < t.len() && spec_usize_token(
        t.subrange(p + 1, find_ch(t, p + 1, ' ')),
    ) is Some)
}

/// Every line after the greeting and before `k` carries a message that the
/// extension parser accepts.
pub open spec fn ehlo_tail_ok_before(lines: Seq<ServerResponseLine>, k: int) -> bool {
    forall|j: int|
        1 <= j < k ==> (#[trigger] lines[j]).message is Some && ext_line_ok(
            lines[j].message->Some_0@,
        )
}

/// Line `k` after the greeting is the first that cannot become an
/// extension, and decides the error: a missing message is an invalid
/// response, a refused message carries the parser's error.
pub open spec fn ehlo_err_at(lines: Seq<ServerResponseLine>, k: int, e: SMTPError) -> bool {
    &&& 1 <= k < lines.len()
    &&& ehlo_tail_ok_before(lines, k)
    &&& match lines[k].message {
        None => e matches SMTPError::InvalidResponse(s) && s@ == "Expected extension, got none"@,
        Some(m) => {
            &&& !ext_line_ok(m@)
            &&& e matches SMTPError::InvalidExtension(pe)
            &&& ext_parse_result(m@, Err(pe))
        },
    }
}

/// The exact outcome of reading a multi-line reply as an EHLO response:
/// an empty reply is a 500 error; a first line with any code but 250 is an
/// error carrying that line; otherwise the first line is the greeting, each
/// further line parses into an extension, and a line that cannot — or a
/// greeting without message — decides the failure.
pub open spec fn ehlo_from_response_post(
    lines: Seq<ServerResponseLine>,
    r: Result<EhloResponse, SMTPError>,
) -> bool {
    if lines.len() == 0 {
        r matches Ok(EhloResponse::Error { code, message }) && code == ResponseCode::Other(500)
            && message@ == "No response lines"@
    } else if lines[0].code.value() != 250 {
        &&& r matches Ok(EhloResponse::Error { code, message })
        &&& code == lines[0].code
        &&& match lines[0].message {
            Some(m) => message@ == m@,
            None => message@ == "No message"@,
        }
    } else {
        match r {
            Ok(resp) => {
                &&& resp matches EhloResponse::Success { hello_code, hello_message, extensions }
                &&& ehlo_tail_ok_before(lines, lines.len() as int)
                &&& extensions@.len() == lines.len() - 1
                &&& forall|k: int|
                    1 <= k < lines.len() ==> ext_parse_result(
                        lines[k].message->Some_0@,
                        Ok(#[trigger] extensions@[k - 1]),
                    )
                &&& lines[0].message is Some
                &&& hello_code == lines[0].code
                &&& hello_message@ == lines[0].message->Some_0@
            },
            Err(e) => {
                (exists|k: int| #[trigger] ehlo_err_at(lines, k, e)) || (ehlo_tail_ok_before(
                    lines,
                    lines.len() as int,
                ) && lines[0].message is None && (e matches SMTPError::InvalidResponse(s) && s@
                    == "Expected hello message, got none"@))
            },
        }
    }
}

impl EhloResponse {
    /// Reads a multi-line reply as an EHLO response.
    pub fn from_response(value: &MultilineServerResponse) -> (r: Result<EhloResponse, SMTPError>)
        ensures
            ehlo_from_response_post(value.0@, r),
    {
        let lines = &value.0;
        let n = lines.len();
        if n == 0 {
            return Ok(
                EhloResponse::Error {
                    code: ResponseCode::from(500),
                    message: String::from_str("No response lines"),
                },
            );
        }
        if lines[0].code.as_u16() != 250 {
            let message = match &lines[0].message {
                Some(m) => m.clone(),
                None => String::from_str("No message"),
            };
            return Ok(EhloResponse::Error { code: lines[0].code, message });
        }
        let mut extensions: Vec<SMTPServerExtension> = Vec::new();
        let mut k: usize = 1;
        while k < n
            invariant
                lines@ == value.0@,
                lines@[0].code.value() == 250,
                1 <= k <= n == lines@.len(),
                extensions@.len() == k - 1,
                ehlo_tail_ok_before(lines@, k as int),
                forall|j: int|
                    1 <= j < k ==> ext_parse_result(
                        lines@[j].message->Some_0@,
                        Ok(#[trigger] extensions@[j - 1]),
                    ),
            decreases n - k,
        {
            match &lines[k].message {
                None => {
                    let e = SMTPError::InvalidResponse("Expected extension, got none");
                    proof {
                        assert(ehlo_err_at(lines@, k as int, e));
                    }
                    return Err(e);
                },
                Some(m) => {
                    match SMTPServerExtension::parse(m.as_str()) {
                        Ok(ext) => {
                            proof {
                                reveal_strlit("SIZE");
                                crate::textbytes::lemma_find_ch(m@, 0, ' ');
                                assert(ext_parse_result(m@, Ok(ext)));
                                assert(ext_line_ok(m@));
                            }
                            extensions.push(ext);
                        },
                        Err(pe) => {
                            proof {
                                reveal_strlit("SIZE");
                                crate::textbytes::lemma_find_ch(m@, 0, ' ');
                                assert(!ext_line_ok(m@));
                            }
                            let e = SMTPError::InvalidExtension(pe);
                            proof {
                                assert(ehlo_err_at(lines@, k as int, e));
                            }
                            return Err(e);
                        },
                    }
                },
            }
            k = k + 1;
        }
        match &lines[0].message {
            None => Err(SMTPError::InvalidResponse("Expected hello message, got none")),
            Some(hello_message) => Ok(
                EhloResponse::Success {
                    hello_code: lines[0].code,
                    hello_message: hello_message.clone(),
                    extensions,
                },
            ),
        }
    }
}

/// The EHLO command, as RFC 5321 section 4.1.1.1 defines it.
pub struct EhloCommand;

impl SMTPCommand for EhloCommand {
    type ClientCommand = EhloCommandData;

    type ServerResponse = EhloResponse;

    /// The bytes of `EHLO`.
    open spec fn command_bytes() -> Seq<u8> {
        seq![0x45u8, 0x48u8, 0x4Cu8, 0x4Fu8]
    }

    fn command() -> (r: &'static str) {
        proof {
            reveal_strlit("EHLO");
            vstd::utf8::is_ascii_chars_encode_utf8("EHLO"@);
            assert(utf8_of("EHLO"@) =~= seq![0x45u8, 0x48u8, 0x4Cu8, 0x4Fu8]);
        }
        "EHLO"
    }
}

/// The bytes of `EHLO ` — the verb and the space before the hostname.
pub open spec fn ehlo_prefix_bytes() -> Seq<u8> {
    seq![0x45u8, 0x48u8, 0x4Cu8, 0x4Fu8, 0x20u8]
}

/// The client's EHLO line for a hostname: the verb, a space, the hostname,
/// CRLF.
pub open spec fn ehlo_line_text(host: Seq<char>) -> Seq<char> {
    seq!['E', 'H', 'L', 'O', ' '] + host + seq!['\r', '\n']
}

impl EhloCommand {
    /// What a server reads from an `EHLO <hostname>` line: the hostname
    /// after the verb and its following space.
    pub fn parse_client_line(line: &str) -> (r: EhloCommandData)
        requires
            is_prefix_of(ehlo_prefix_bytes(), utf8_of(line@)),
        ensures
            utf8_of(r.client_hostname@) == utf8_of(line@).skip(5),
    {
        proof {
            let b = line.spec_bytes();
            vstd::utf8::encode_utf8_valid_utf8(line@);
            vstd::utf8::is_char_boundary_start_end_of_seq(b);
            assert(b[0] == 0x45 && b[1] == 0x48 && b[2] == 0x4C && b[3] == 0x4F && b[4] == 0x20);
            lemma_boundary_after_ascii(b, 0);
            lemma_boundary_after_ascii(b, 1);
            lemma_boundary_after_ascii(b, 2);
            lemma_boundary_after_ascii(b, 3);
            lemma_boundary_after_ascii(b, 4);
        }
        let host_name = line.split_at(5).1;
        proof {
            assert(utf8_of(host_name@) =~= utf8_of(line@).skip(5));
        }
        EhloCommandData { client_hostname: host_name.to_owned() }
    }

    /// The line a client sends for an EHLO command.
    pub fn client_line(command: &EhloCommandData) -> (r: String)
        ensures
            r@ == ehlo_line_text(command.client_hostname@),
    {
        let mut out = String::new();
        out.append("EHLO ");
        out.append(command.client_hostname.as_str());
        out.append("\r\n");
        proof {
            reveal_strlit("EHLO ");
            reveal_strlit("\r\n");
            assert(out@ =~= ehlo_line_text(command.client_hostname@));
        }
        out
    }

    /// The statement a server answers an EHLO with: the refusal as a single
    /// line, or the greeting followed by one line per extension, each with
    /// the success code.
    pub fn server_statement(response: &EhloResponse) -> (r: MultilineServerResponse)
        ensures
            match response {
                EhloResponse::Error { code, message } => {
                    &&& r.lines().len() == 1
                    &&& r.lines()[0].code == *code
                    &&& r.lines()[0].message matches Some(m) && m@ == message@
                },
                EhloResponse::Success { hello_code, hello_message, extensions } => {
                    &&& r.lines().len() == 1 + extensions@.len()
                    &&& r.lines()[0].code == *hello_code
                    &&& r.lines()[0].message matches Some(m) && m@ == hello_message@
                    &&& forall|k: int|
                        1 <= k < r.lines().len() ==> (#[trigger] r.lines()[k]).code
                            == ResponseCode::Okay && (r.lines()[k].message matches Some(m) && m@
                            == extensions@[k - 1].ext_text())
                },
            },
    {
        match response {
            EhloResponse::Error { code, message } => {
                MultilineServerResponse::new(
                    vec![ServerResponseLine::new(*code, Some(message.clone()))],
                )
            },
            EhloResponse::Success { hello_code, hello_message, extensions } => {
                let n = extensions.len();
                let mut statement = MultilineServerResponse::new_with_code(
                    *hello_code,
                    Some(hello_message.clone()),
                    n,
                );
                let mut k: usize = 0;
                while k < n
                    invariant
                        0 <= k <= n == extensions@.len(),
                        statement.lines().len() == 1 + k,
                        statement.lines()[0].code == *hello_code,
                        statement.lines()[0].message matches Some(m) && m@ == hello_message@,
                        forall|j: int|
                            1 <= j < statement.lines().len() ==> (#[trigger] statement.lines()[j]).code
                                == ResponseCode::Okay && (statement.lines()[j].message matches Some(
                                m,
                            ) && m@ == extensions@[j - 1].ext_text()),
                    decreases n - k,
                {
                    statement.add_line(ResponseCode::Okay, Some(extensions[k].to_message()));
                    k = k + 1;
                }
                statement
            },
        }
    }
}

} // verus!
