//! The contract between the statement layer and a transport: the state a
//! connection is in, the interfaces a transport implements, and the
//! multi-line continuation rule that decides when a reply is complete.
use vstd::prelude::*;

use crate::extension::SMTPServerExtension;
use crate::statement::{split_crlf, split_crlf_lines};

verus! {

/// The end of a multi-line command body.
pub const END_OF_MULTILINE_COMMAND: &'static str = ".\n";

/// The end of a command line.
pub const END_OF_COMMAND: &'static str = "\n";

/// The line terminator of the wire protocol.
pub const CRLF: &'static str = "\r\n";

/// Where a connection stands: freshly connected, or greeted after a
/// successful EHLO exchange.
#[derive(Debug, Clone, Copy, PartialEq, Eq, Structural)]
pub enum SMTPConnectionState {
    /// The transport is connected; no greeting has succeeded yet.
    Connected,
    /// A hello command has succeeded.
    Helo,
}

impl SMTPConnectionState {
    /// The state after a hello command succeeds; nothing else advances it.
    pub fn after_ehlo_success(self) -> (r: Self)
        ensures
            r == SMTPConnectionState::Helo,
    {
        SMTPConnectionState::Helo
    }
}

/// What a server exposes to the connections it serves.
pub trait SMTPServer {
    /// The hostname the server announces.
    fn get_hostname(&self) -> &str;

    /// The server's display name.
    fn name(&self) -> &str;

    /// The greeting sent on connect, if the server has one.
    fn get_greeting(&self) -> Option<&str>;

    /// The extensions the server advertises after EHLO.
    fn supported_extensions(&self) -> &Vec<SMTPServerExtension>;
}

/// What a server-side transport exposes to the command layer.
pub trait SMTPConnection {
    /// The server this connection belongs to.
    type Server: SMTPServer;

    /// The server this connection belongs to.
    fn get_server(&self) -> &Self::Server;

    /// Where the connection stands.
    fn get_state(&self) -> &SMTPConnectionState;

    /// The terminator of a multi-line command body.
    fn get_end_of_multiline_command(&self) -> &str;
}

/// What a client-side transport exposes to the command layer.
pub trait SMTPClient {
    /// The hostname the client announces in EHLO.
    fn get_hostname(&self) -> &str;

    /// The terminator of a multi-line command body.
    fn get_end_of_multiline_command(&self) -> &str;
}

/// The multi-line continuation rule: an accumulated reply buffer is complete
/// exactly when it ends in CRLF and the piece before the final empty piece —
/// the last full line — carries a space as its fourth character.
pub open spec fn spec_multiline_complete(t: Seq<char>) -> bool {
    let pieces = split_crlf(t);
    &&& t.len() >= 2
    &&& t[t.len() - 2] == '\r'
    &&& t[t.len() - 1] == '\n'
    &&& pieces.len() >= 2
    &&& pieces[pieces.len() - 2].len() > 3
    &&& pieces[pieces.len() - 2][3] == ' '
}

/// Decides [`spec_multiline_complete`]: whether an accumulated reply buffer
/// holds a complete multi-line reply, terminal line included.
pub fn multiline_reply_complete(buffer: &str) -> (r: bool)
    ensures
        r == spec_multiline_complete(buffer@),
{
    let n = buffer.unicode_len();
    if n < 2 || !(buffer.get_char(n - 2) == '\r' && buffer.get_char(n - 1) == '\n') {
        return false;
    }
    let pieces = split_crlf_lines(buffer);
    let m = pieces.len();
    if m < 2 {
        return false;
    }
    let last_line = &pieces[m - 2];
    let line_len = last_line.as_str().unicode_len();
    line_len > 3 && last_line.as_str().get_char(3) == ' '
}

/// The lines of a complete multi-line reply buffer: the buffer without its
/// final CRLF, split on every CRLF.
pub fn multiline_reply_lines(buffer: &str) -> (r: Vec<String>)
    requires
        spec_multiline_complete(buffer@),
    ensures
        ({
            let body = buffer@.subrange(0, buffer@.len() - 2);
            &&& r@.len() == split_crlf(body).len()
            &&& forall|k: int| 0 <= k < r@.len() ==> r@[k]@ == split_crlf(body)[k]
        }),
{
    let n = buffer.unicode_len();
    let body = buffer.substring_char(0, n - 2);
    split_crlf_lines(body)
}

} // verus!
