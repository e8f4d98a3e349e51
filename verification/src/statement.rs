//! The SMTP statement layer: reply lines (3-digit code, continuation marker,
//! message) and multi-line replies, with exact parsing and serialization
//! contracts.
use vstd::prelude::*;

use crate::textbytes::{ascii_to_string, utf8_of};

verus! {

/// An error while serializing a statement into a writer.
#[derive(Debug, Clone, Copy, PartialEq, Eq, Structural)]
pub enum StatementWriteError {
    /// The writer refused the data.
    GenericWriteError,
    /// The data was not valid UTF-8 where text was required.
    InvalidUtf8,
}

/// An error while parsing a statement.
#[derive(Debug, Clone, PartialEq, Eq)]
pub enum StatementParseError {
    /// The statement exceeds what the parser accepts.
    TooBig,
    /// The first three bytes of a reply line are not ASCII digits; carries
    /// the offending line.
    InvalidResponseCode(String),
}

/// A sink that statements can be serialized into. `contents` is the text
/// written so far; each write appends to it.
pub trait StatementWriter {
    /// The text the writer holds.
    spec fn contents(&self) -> Seq<char>;

    /// Appends a string slice.
    fn write_str(&mut self, s: &str) -> (r: Result<(), StatementWriteError>)
        ensures
            r is Ok ==> final(self).contents() == old(self).contents() + s@,
    ;

    /// Appends raw bytes, which must spell valid UTF-8 text.
    fn write_bytes(&mut self, bytes: &[u8]) -> (r: Result<(), StatementWriteError>)
        ensures
            r is Ok ==> utf8_of(final(self).contents()) == utf8_of(old(self).contents()) + bytes@,
    ;

    /// Appends an owned string.
    fn write_string(&mut self, string: String) -> (r: Result<(), StatementWriteError>)
        ensures
            r is Ok ==> final(self).contents() == old(self).contents() + string@,
    ;
}

/// A plain string buffer is a statement writer; only `write_bytes` can fail,
/// on bytes that are not UTF-8.
impl StatementWriter for String {
    open spec fn contents(&self) -> Seq<char> {
        self@
    }

    fn write_str(&mut self, s: &str) -> (r: Result<(), StatementWriteError>) {
        self.append(s);
        Ok(())
    }

    fn write_bytes(&mut self, bytes: &[u8]) -> (r: Result<(), StatementWriteError>) {
        match core::str::from_utf8(bytes) {
            Ok(t) => {
                proof {
                    crate::textbytes::lemma_encode_utf8_concat(old(self)@, t@);
                }
                self.append(t);
                Ok(())
            },
            Err(_) => Err(StatementWriteError::InvalidUtf8),
        }
    }

    fn write_string(&mut self, string: String) -> (r: Result<(), StatementWriteError>) {
        self.append(string.as_str());
        Ok(())
    }
}

/// An SMTP reply code: the common success code 250 has a named variant.
#[derive(Debug, Clone, Copy, PartialEq, Eq, Structural)]
pub enum ResponseCode {
    /// The reply code 250.
    Okay,
    /// Any other reply code.
    Other(u16),
}

impl ResponseCode {
    /// The numeric value of the code.
    pub open spec fn value(&self) -> u16 {
        match self {
            ResponseCode::Okay => 250,
            ResponseCode::Other(code) => *code,
        }
    }

    /// The code a number maps to: 250 becomes the named variant.
    pub open spec fn spec_from_u16(code: u16) -> Self {
        if code == 250 {
            ResponseCode::Okay
        } else {
            ResponseCode::Other(code)
        }
    }

    /// The numeric value of the code.
    pub fn as_u16(&self) -> (r: u16)
        ensures
            r == self.value(),
    {
        match self {
            ResponseCode::Okay => 250,
            ResponseCode::Other(code) => *code,
        }
    }

    /// Whether the code has the given numeric value.
    pub fn matches_code(&self, other: u16) -> (r: bool)
        ensures
            r == (self.value() == other),
    {
        self.as_u16() == other
    }
}

impl From<u16> for ResponseCode {
    /// Builds [`ResponseCode::spec_from_u16`].
    fn from(code: u16) -> (r: Self) {
        if code == 250 {
            ResponseCode::Okay
        } else {
            ResponseCode::Other(code)
        }
    }
}

impl vstd::std_specs::convert::FromSpecImpl<u16> for ResponseCode {
    open spec fn obeys_from_spec() -> bool {
        true
    }

    open spec fn from_spec(code: u16) -> Self {
        ResponseCode::spec_from_u16(code)
    }
}

/// The value of an ASCII digit character.
pub open spec fn digit_val(c: char) -> u16 {
    (c as u16 - 0x30) as u16
}

/// Whether a character is an ASCII decimal digit.
pub open spec fn is_digit_c(c: char) -> bool {
    '0' <= c && c <= '9'
}

/// The three digit characters of a reply code.
pub open spec fn code_digits(c: u16) -> Seq<char>
    recommends
        c <= 999,
{
    seq![
        ((0x30 + c / 100) as u8) as char,
        ((0x30 + (c / 10) % 10) as u8) as char,
        ((0x30 + c % 10) as u8) as char,
    ]
}

/// Renders a reply code as exactly three ASCII digits.
pub fn code_string(c: u16) -> (r: String)
    requires
        c <= 999,
    ensures
        r@ == code_digits(c),
{
    let d0 = (0x30 + c / 100) as u8;
    let d1 = (0x30 + (c / 10) % 10) as u8;
    let d2 = (0x30 + c % 10) as u8;
    let mut v: Vec<u8> = Vec::new();
    v.push(d0);
    v.push(d1);
    v.push(d2);
    let r = ascii_to_string(v.as_slice());
    proof {
        assert(r@ =~= code_digits(c));
    }
    r
}

/// The exact reading of one reply line: the numeric code from the first
/// three digit characters, and the message after the fourth character, if
/// the line is longer than the code alone. `None` when the line does not
/// begin with three digits.
pub open spec fn spec_line_parse(t: Seq<char>) -> Option<(u16, Option<Seq<char>>)> {
    if t.len() >= 3 && is_digit_c(t[0]) && is_digit_c(t[1]) && is_digit_c(t[2]) {
        let code = (digit_val(t[0]) * 100 + digit_val(t[1]) * 10 + digit_val(t[2])) as u16;
        if t.len() == 3 {
            Some((code, None))
        } else {
            Some((code, Some(t.subrange(4, t.len() as int))))
        }
    } else {
        None
    }
}

/// One line of a server reply: a reply code and an optional message.
#[derive(Debug, Clone, PartialEq, Eq)]
pub struct ServerResponseLine {
    /// The reply code.
    pub code: ResponseCode,
    /// The message after the separator, where the line has one.
    pub message: Option<String>,
}

impl ServerResponseLine {
    /// A reply line can be serialized when its code fits in three digits.
    pub open spec fn wf(&self) -> bool {
        self.code.value() <= 999
    }

    /// The line holds exactly what one parsed reply line spells.
    pub open spec fn matches_parse(&self, p: (u16, Option<Seq<char>>)) -> bool {
        &&& self.code == ResponseCode::spec_from_u16(p.0)
        &&& match (self.message, p.1) {
            (Some(m), Some(sm)) => m@ == sm,
            (None, None) => true,
            _ => false,
        }
    }

    /// Creates a reply line from a code and an optional message.
    pub fn new(code: ResponseCode, message: Option<String>) -> (r: Self)
        ensures
            r.code == code,
            r.message == message,
    {
        Self { code, message }
    }

    /// Parses one reply line: the first three characters must be ASCII
    /// digits; a line of exactly three characters has no message; otherwise
    /// the fourth character is the continuation marker and the rest is the
    /// message.
    pub fn from_str(string: &str) -> (r: Result<Self, StatementParseError>)
        ensures
            match r {
                Ok(line) => {
                    &&& spec_line_parse(string@) matches Some(p)
                    &&& line.matches_parse(p)
                    &&& line.wf()
                },
                Err(e) => {
                    &&& spec_line_parse(string@) is None
                    &&& e matches StatementParseError::InvalidResponseCode(s) && s@ == string@
                },
            },
    {
        let n = string.unicode_len();
        if n < 3 {
            return Err(StatementParseError::InvalidResponseCode(string.to_owned()));
        }
        let c0 = string.get_char(0);
        let c1 = string.get_char(1);
        let c2 = string.get_char(2);
        if !(('0' <= c0 && c0 <= '9') && ('0' <= c1 && c1 <= '9') && ('0' <= c2 && c2 <= '9')) {
            return Err(StatementParseError::InvalidResponseCode(string.to_owned()));
        }
        let code_num: u16 = (c0 as u16 - 0x30) * 100 + (c1 as u16 - 0x30) * 10 + (c2 as u16
            - 0x30);
        let code = ResponseCode::from(code_num);
        if n == 3 {
            Ok(Self { code, message: None })
        } else {
            let message = string.substring_char(4, n).to_owned();
            Ok(Self { code, message: Some(message) })
        }
    }

    /// The line as `<code>-<message>\r\n`.
    pub open spec fn spec_hyphenated(&self) -> Seq<char> {
        code_digits(self.code.value()) + seq!['-'] + self.message_chars() + seq!['\r', '\n']
    }

    /// The line as `<code> <message>\r\n`.
    pub open spec fn spec_spaced(&self) -> Seq<char> {
        code_digits(self.code.value()) + seq![' '] + self.message_chars() + seq!['\r', '\n']
    }

    /// The message text, or nothing where the line has none.
    pub open spec fn message_chars(&self) -> Seq<char> {
        match self.message {
            Some(m) => m@,
            None => Seq::empty(),
        }
    }

    /// Appends the line to `buf` with the continuation marker `-`.
    pub fn write_hyphenated_line<W: StatementWriter>(&self, buf: &mut W) -> (r: Result<
        (),
        StatementWriteError,
    >)
        requires
            self.wf(),
        ensures
            r is Ok ==> final(buf).contents() == old(buf).contents() + self.spec_hyphenated(),
    {
        let code = code_string(self.code.as_u16());
        if let Err(e) = buf.write_str(code.as_str()) {
            return Err(e);
        }
        if let Err(e) = buf.write_str("-") {
            return Err(e);
        }
        if let Some(message) = &self.message {
            if let Err(e) = buf.write_str(message.as_str()) {
                return Err(e);
            }
        }
        if let Err(e) = buf.write_str("\r\n") {
            return Err(e);
        }
        proof {
            reveal_strlit("-");
            reveal_strlit("\r\n");
            assert(final(buf).contents() =~= old(buf).contents() + self.spec_hyphenated());
        }
        Ok(())
    }

    /// Appends the line to `buf` with the terminal marker, a space.
    pub fn write_spaced_line<W: StatementWriter>(&self, buf: &mut W) -> (r: Result<
        (),
        StatementWriteError,
    >)
        requires
            self.wf(),
        ensures
            r is Ok ==> final(buf).contents() == old(buf).contents() + self.spec_spaced(),
    {
        let code = code_string(self.code.as_u16());
        if let Err(e) = buf.write_str(code.as_str()) {
            return Err(e);
        }
        if let Err(e) = buf.write_str(" ") {
            return Err(e);
        }
        if let Some(message) = &self.message {
            if let Err(e) = buf.write_str(message.as_str()) {
                return Err(e);
            }
        }
        if let Err(e) = buf.write_str("\r\n") {
            return Err(e);
        }
        proof {
            reveal_strlit(" ");
            reveal_strlit("\r\n");
            assert(final(buf).contents() =~= old(buf).contents() + self.spec_spaced());
        }
        Ok(())
    }

    /// The line as an owned `<code>-<message>\r\n` string.
    pub fn to_hyphenated_line(&self) -> (r: String)
        requires
            self.wf(),
        ensures
            r@ == self.spec_hyphenated(),
    {
        let mut string = code_string(self.code.as_u16());
        string.append("-");
        if let Some(message) = &self.message {
            string.append(message.as_str());
        }
        string.append("\r\n");
        proof {
            reveal_strlit("-");
            reveal_strlit("\r\n");
            assert(string@ =~= self.spec_hyphenated());
        }
        string
    }

    /// The line as an owned `<code> <message>\r\n` string.
    pub fn to_spaced_line(&self) -> (r: String)
        requires
            self.wf(),
        ensures
            r@ == self.spec_spaced(),
    {
        let mut string = code_string(self.code.as_u16());
        string.append(" ");
        if let Some(message) = &self.message {
            string.append(message.as_str());
        }
        string.append("\r\n");
        proof {
            reveal_strlit(" ");
            reveal_strlit("\r\n");
            assert(string@ =~= self.spec_spaced());
        }
        string
    }

    /// The buffer-size hint for the line: four bytes for the code and the
    /// separator, plus the message bytes.
    pub open spec fn spec_statement_size(&self) -> int {
        4 + match self.message {
            Some(m) => utf8_of(m@).len() as int,
            None => 0,
        }
    }

    /// Computes [`ServerResponseLine::spec_statement_size`].
    pub fn statement_size(&self) -> (r: usize)
        requires
            self.spec_statement_size() <= usize::MAX,
        ensures
            r == self.spec_statement_size(),
    {
        4 + match &self.message {
            Some(m) => m.as_str().as_bytes().len(),
            None => 0,
        }
    }
}

/// The position of the first CRLF pair at or after `i`, or the length of
/// `t` when there is none.
pub open spec fn find_crlf(t: Seq<char>, i: int) -> int
    decreases t.len() - i,
    when 0 <= i <= t.len()
{
    if i + 2 > t.len() {
        t.len() as int
    } else if t[i] == '\r' && t[i + 1] == '\n' {
        i
    } else {
        find_crlf(t, i + 1)
    }
}

/// What `find_crlf` yields is in range, and a CRLF pair where it is not the
/// end.
pub proof fn lemma_find_crlf(t: Seq<char>, i: int)
    requires
        0 <= i <= t.len(),
    ensures
        i <= find_crlf(t, i) <= t.len(),
        find_crlf(t, i) < t.len() ==> find_crlf(t, i) + 2 <= t.len() && t[find_crlf(t, i)] == '\r'
            && t[find_crlf(t, i) + 1] == '\n',
    decreases t.len() - i,
{
    if i + 2 > t.len() {
    } else if t[i] == '\r' && t[i + 1] == '\n' {
    } else {
        lemma_find_crlf(t, i + 1);
    }
}

/// The pieces of `t` from `start` on, split on every CRLF pair.
pub open spec fn split_from(t: Seq<char>, start: int) -> Seq<Seq<char>>
    decreases t.len() - start,
    when 0 <= start <= t.len()
    via split_from_dec
{
    let p = find_crlf(t, start);
    if p == t.len() {
        seq![t.subrange(start, t.len() as int)]
    } else {
        seq![t.subrange(start, p)] + split_from(t, p + 2)
    }
}

#[via_fn]
proof fn split_from_dec(t: Seq<char>, start: int) {
    lemma_find_crlf(t, start);
}

/// The pieces of `t`, split on every CRLF pair. A text without CRLF is one
/// piece; a trailing CRLF yields a final empty piece.
pub open spec fn split_crlf(t: Seq<char>) -> Seq<Seq<char>> {
    split_from(t, 0)
}

/// Splits a text on every CRLF pair.
pub fn split_crlf_lines(s: &str) -> (r: Vec<String>)
    ensures
        r@.len() == split_crlf(s@).len(),
        forall|k: int| 0 <= k < r@.len() ==> r@[k]@ == split_crlf(s@)[k],
{
    let n = s.unicode_len();
    let mut out: Vec<String> = Vec::new();
    let mut start: usize = 0;
    loop
        invariant
            0 <= start <= n == s@.len(),
            split_crlf(s@) == out@.map_values(|x: String| x@) + split_from(s@, start as int),
        decreases n - start,
    {
        let mut i = start;
        while i < n && i + 1 < n && !(s.get_char(i) == '\r' && s.get_char(i + 1) == '\n')
            invariant
                start <= i <= n == s@.len(),
                find_crlf(s@, start as int) == find_crlf(s@, i as int),
            decreases n - i,
        {
            i = i + 1;
        }
        let p = if i < n && i + 1 < n {
            i
        } else {
            n
        };
        proof {
            lemma_find_crlf(s@, start as int);
        }
        let ghost out0 = out@;
        out.push(s.substring_char(start, p).to_owned());
        proof {
            assert(out@.map_values(|x: String| x@) =~= out0.map_values(|x: String| x@) + seq![
                s@.subrange(start as int, p as int),
            ]);
        }
        if p == n {
            proof {
                assert(split_crlf(s@) =~= out@.map_values(|x: String| x@));
            }
            return out;
        }
        proof {
            assert(split_crlf(s@) =~= out@.map_values(|x: String| x@) + split_from(s@, p + 2));
        }
        start = p + 2;
    }
}

/// A multi-line server reply: an ordered sequence of reply lines. On the
/// wire, every line but the last carries the continuation marker `-`, and
/// the last a space.
#[derive(Debug, Clone, PartialEq, Eq)]
pub struct MultilineServerResponse(pub Vec<ServerResponseLine>);

/// The wire text of the lines from `k` on: all hyphenated but the last,
/// which is spaced.
pub open spec fn multi_wire_from(ls: Seq<ServerResponseLine>, k: int) -> Seq<char>
    decreases ls.len() - k,
{
    if k < 0 || k >= ls.len() {
        Seq::empty()
    } else if k == ls.len() - 1 {
        ls[k].spec_spaced()
    } else {
        ls[k].spec_hyphenated() + multi_wire_from(ls, k + 1)
    }
}

/// The size hint of the lines from `k` on: each line's own hint plus two
/// bytes for its line ending.
pub open spec fn multi_size_from(ls: Seq<ServerResponseLine>, k: int) -> int
    decreases ls.len() - k,
{
    if k < 0 || k >= ls.len() {
        0
    } else {
        ls[k].spec_statement_size() + 2 + multi_size_from(ls, k + 1)
    }
}

/// Size hints only grow as lines are added.
pub proof fn lemma_multi_size_nonneg(ls: Seq<ServerResponseLine>, k: int)
    ensures
        0 <= multi_size_from(ls, k),
    decreases ls.len() - k,
{
    if 0 <= k < ls.len() {
        lemma_multi_size_nonneg(ls, k + 1);
    }
}

/// The exact outcome of parsing a sequence of reply lines: either every
/// line parses, or the first line that does not decides the error.
pub open spec fn lines_parse_result(
    lines: Seq<Seq<char>>,
    r: Result<MultilineServerResponse, StatementParseError>,
) -> bool {
    match r {
        Ok(m) => {
            &&& m.0@.len() == lines.len()
            &&& forall|k: int| 0 <= k < lines.len() ==> #[trigger] spec_line_parse(lines[k]) is Some
            &&& forall|k: int|
                0 <= k < lines.len() ==> (#[trigger] m.0@[k]).matches_parse(
                    spec_line_parse(lines[k])->Some_0,
                ) && m.0@[k].wf()
        },
        Err(e) => exists|k: int| #[trigger] lines_parse_err_at(lines, k, e),
    }
}

/// Line `k` is the first that does not parse, and decides the error.
pub open spec fn lines_parse_err_at(lines: Seq<Seq<char>>, k: int, e: StatementParseError) -> bool {
    &&& 0 <= k < lines.len()
    &&& forall|j: int| 0 <= j < k ==> #[trigger] spec_line_parse(lines[j]) is Some
    &&& spec_line_parse(lines[k]) is None
    &&& e matches StatementParseError::InvalidResponseCode(s) && s@ == lines[k]
}

impl MultilineServerResponse {
    /// The reply's lines.
    pub open spec fn lines(&self) -> Seq<ServerResponseLine> {
        self.0@
    }

    /// A reply can be serialized when every line can.
    pub open spec fn wf(&self) -> bool {
        forall|k: int| 0 <= k < self.lines().len() ==> (#[trigger] self.lines()[k]).wf()
    }

    /// Creates a reply from the given lines.
    pub fn new(lines: Vec<ServerResponseLine>) -> (r: Self)
        ensures
            r.0 == lines,
    {
        Self(lines)
    }

    /// Creates a reply holding one line, with room reserved for more; the
    /// capacity is only a sizing hint.
    pub fn new_with_code(code: ResponseCode, message: Option<String>, capacity: usize) -> (r: Self)
        ensures
            r.lines() =~= seq![ServerResponseLine { code, message }],
    {
        let mut lines: Vec<ServerResponseLine> = Vec::with_capacity(capacity);
        lines.push(ServerResponseLine::new(code, message));
        Self(lines)
    }

    /// Appends a line to the reply.
    pub fn add_line(&mut self, code: ResponseCode, message: Option<String>)
        ensures
            final(self).lines() == old(self).lines().push(
                ServerResponseLine { code, message },
            ),
    {
        self.0.push(ServerResponseLine::new(code, message));
    }

    /// Parses a whole text as a reply, one line per CRLF-separated piece.
    pub fn from_str(s: &str) -> (r: Result<Self, StatementParseError>)
        ensures
            lines_parse_result(split_crlf(s@), r),
    {
        let lines = split_crlf_lines(s);
        proof {
            assert(lines.deep_view() =~= split_crlf(s@));
        }
        Self::from_lines(&lines)
    }
}

/// A statement that can be sized and serialized for the wire.
pub trait Statement {
    /// The statement's wire text.
    spec fn wire(&self) -> Seq<char>;

    /// The statement's buffer-size hint.
    spec fn spec_size(&self) -> int;

    /// When the statement can be serialized.
    spec fn serializable(&self) -> bool;

    /// Computes the buffer-size hint.
    fn statement_size(&self) -> (r: usize)
        requires
            self.spec_size() <= usize::MAX,
        ensures
            r == self.spec_size(),
    ;

    /// Serializes the statement into a byte buffer.
    fn to_bytes(&self) -> (b: bytes::Bytes)
        requires
            self.serializable(),
        ensures
            crate::wire::bytes_contents(b) == utf8_of(self.wire()),
    ;
}

/// A statement written as one reply line, in either continuation form.
pub trait SingleLineStatement: Statement {
    /// The line with the continuation marker `-`.
    spec fn hyphenated_wire(&self) -> Seq<char>;

    /// The line with the terminal marker, a space.
    spec fn spaced_wire(&self) -> Seq<char>;

    /// The line as an owned string, hyphenated.
    fn to_hyphenated_line(&self) -> (r: String)
        requires
            self.serializable(),
        ensures
            r@ == self.hyphenated_wire(),
    ;

    /// Appends the hyphenated line to `buf`.
    fn write_hyphenated_line<W: StatementWriter>(&self, buf: &mut W) -> (r: Result<
        (),
        StatementWriteError,
    >)
        requires
            self.serializable(),
        ensures
            r is Ok ==> final(buf).contents() == old(buf).contents() + self.hyphenated_wire(),
    ;

    /// The line as an owned string, spaced.
    fn to_spaced_line(&self) -> (r: String)
        requires
            self.serializable(),
        ensures
            r@ == self.spaced_wire(),
    ;

    /// Appends the spaced line to `buf`.
    fn write_spaced_line<W: StatementWriter>(&self, buf: &mut W) -> (r: Result<
        (),
        StatementWriteError,
    >)
        requires
            self.serializable(),
        ensures
            r is Ok ==> final(buf).contents() == old(buf).contents() + self.spaced_wire(),
    ;
}

/// A statement assembled from the raw lines of a multi-line reply.
pub trait MultiLineStatement: Statement + Sized {
    /// What assembling from the given lines must yield.
    spec fn from_lines_post(lines: Seq<Seq<char>>, r: Result<Self, StatementParseError>) -> bool;

    /// Assembles the statement from raw reply lines.
    fn from_lines(lines: &Vec<String>) -> (r: Result<Self, StatementParseError>)
        ensures
            Self::from_lines_post(lines.deep_view(), r),
    ;
}

impl Statement for ServerResponseLine {
    open spec fn wire(&self) -> Seq<char> {
        self.spec_spaced()
    }

    open spec fn spec_size(&self) -> int {
        self.spec_statement_size()
    }

    open spec fn serializable(&self) -> bool {
        self.wf()
    }

    fn statement_size(&self) -> (r: usize) {
        4 + match &self.message {
            Some(m) => m.as_str().as_bytes().len(),
            None => 0,
        }
    }

    fn to_bytes(&self) -> (b: bytes::Bytes) {
        let line = self.to_spaced_line();
        let v = vstd::slice::slice_to_vec(line.as_str().as_bytes());
        crate::wire::bytes_from_vec(v)
    }
}

impl SingleLineStatement for ServerResponseLine {
    open spec fn hyphenated_wire(&self) -> Seq<char> {
        self.spec_hyphenated()
    }

    open spec fn spaced_wire(&self) -> Seq<char> {
        self.spec_spaced()
    }

    fn to_hyphenated_line(&self) -> (r: String) {
        let mut string = code_string(self.code.as_u16());
        string.append("-");
        if let Some(message) = &self.message {
            string.append(message.as_str());
        }
        string.append("\r\n");
        proof {
            reveal_strlit("-");
            reveal_strlit("\r\n");
            assert(string@ =~= self.spec_hyphenated());
        }
        string
    }

    fn write_hyphenated_line<W: StatementWriter>(&self, buf: &mut W) -> (r: Result<
        (),
        StatementWriteError,
    >) {
        let code = code_string(self.code.as_u16());
        if let Err(e) = buf.write_str(code.as_str()) {
            return Err(e);
        }
        if let Err(e) = buf.write_str("-") {
            return Err(e);
        }
        if let Some(message) = &self.message {
            if let Err(e) = buf.write_str(message.as_str()) {
                return Err(e);
            }
        }
        if let Err(e) = buf.write_str("\r\n") {
            return Err(e);
        }
        proof {
            reveal_strlit("-");
            reveal_strlit("\r\n");
            assert(final(buf).contents() =~= old(buf).contents() + self.spec_hyphenated());
        }
        Ok(())
    }

    fn to_spaced_line(&self) -> (r: String) {
        let mut string = code_string(self.code.as_u16());
        string.append(" ");
        if let Some(message) = &self.message {
            string.append(message.as_str());
        }
        string.append("\r\n");
        proof {
            reveal_strlit(" ");
            reveal_strlit("\r\n");
            assert(string@ =~= self.spec_spaced());
        }
        string
    }

    fn write_spaced_line<W: StatementWriter>(&self, buf: &mut W) -> (r: Result<
        (),
        StatementWriteError,
    >) {
        let code = code_string(self.code.as_u16());
        if let Err(e) = buf.write_str(code.as_str()) {
            return Err(e);
        }
        if let Err(e) = buf.write_str(" ") {
            return Err(e);
        }
        if let Some(message) = &self.message {
            if let Err(e) = buf.write_str(message.as_str()) {
                return Err(e);
            }
        }
        if let Err(e) = buf.write_str("\r\n") {
            return Err(e);
        }
        proof {
            reveal_strlit(" ");
            reveal_strlit("\r\n");
            assert(final(buf).contents() =~= old(buf).contents() + self.spec_spaced());
        }
        Ok(())
    }
}

impl Statement for MultilineServerResponse {
    open spec fn wire(&self) -> Seq<char> {
        multi_wire_from(self.0@, 0)
    }

    open spec fn spec_size(&self) -> int {
        multi_size_from(self.0@, 0)
    }

    open spec fn serializable(&self) -> bool {
        self.wf()
    }

    fn statement_size(&self) -> (r: usize) {
        let n = self.0.len();
        let mut acc: usize = 0;
        let mut k: usize = 0;
        while k < n
            invariant
                0 <= k <= n == self.0@.len(),
                multi_size_from(self.0@, 0) <= usize::MAX,
                acc + multi_size_from(self.0@, k as int) == multi_size_from(self.0@, 0),
            decreases n - k,
        {
            proof {
                lemma_multi_size_nonneg(self.0@, k + 1);
            }
            acc = acc + self.0[k].statement_size() + 2;
            k = k + 1;
        }
        acc
    }

    fn to_bytes(&self) -> (b: bytes::Bytes) {
        let n = self.0.len();
        let mut out = String::new();
        let mut k: usize = 0;
        while k < n
            invariant
                0 <= k <= n == self.0@.len(),
                self.wf(),
                out@ + multi_wire_from(self.0@, k as int) == multi_wire_from(self.0@, 0),
            decreases n - k,
        {
            assert(self.lines()[k as int].wf());
            let piece = if k + 1 == n {
                self.0[k].to_spaced_line()
            } else {
                self.0[k].to_hyphenated_line()
            };
            out.append(piece.as_str());
            proof {
                assert(out@ + multi_wire_from(self.0@, k + 1) =~= multi_wire_from(self.0@, 0));
            }
            k = k + 1;
        }
        proof {
            assert(out@ =~= multi_wire_from(self.0@, 0));
        }
        let v = vstd::slice::slice_to_vec(out.as_str().as_bytes());
        crate::wire::bytes_from_vec(v)
    }
}

impl MultiLineStatement for MultilineServerResponse {
    open spec fn from_lines_post(
        lines: Seq<Seq<char>>,
        r: Result<Self, StatementParseError>,
    ) -> bool {
        lines_parse_result(lines, r)
    }

    fn from_lines(lines: &Vec<String>) -> (r: Result<Self, StatementParseError>) {
        let n = lines.len();
        let mut out: Vec<ServerResponseLine> = Vec::new();
        let mut k: usize = 0;
        while k < n
            invariant
                0 <= k <= n == lines@.len(),
                out@.len() == k,
                forall|j: int|
                    0 <= j < k ==> #[trigger] spec_line_parse(lines.deep_view()[j]) is Some,
                forall|j: int|
                    0 <= j < k ==> (#[trigger] out@[j]).matches_parse(
                        spec_line_parse(lines.deep_view()[j])->Some_0,
                    ) && out@[j].wf(),
            decreases n - k,
        {
            proof {
                assert(lines.deep_view()[k as int] == lines@[k as int]@);
            }
            let cur = lines[k].as_str();
            proof {
                assert(cur@ == lines.deep_view()[k as int]);
            }
            match ServerResponseLine::from_str(cur) {
                Ok(line) => {
                    let ghost out0 = out@;
                    out.push(line);
                    proof {
                        assert forall|j: int| 0 <= j < k + 1 implies (
                        #[trigger] out@[j]).matches_parse(
                            spec_line_parse(lines.deep_view()[j])->Some_0,
                        ) && out@[j].wf() by {
                            if j < k {
                                assert(out@[j] == out0[j]);
                            } else {
                                assert(out@[j] == line);
                            }
                        }
                    }
                },
                Err(e) => {
                    proof {
                        let ghost dv = lines.deep_view();
                        assert(forall|j: int|
                            0 <= j < k ==> #[trigger] spec_line_parse(dv[j]) is Some);
                        assert(lines_parse_err_at(dv, k as int, e));
                    }
                    return Err(e);
                },
            }
            k = k + 1;
        }
        proof {
            assert(lines.deep_view().len() == lines@.len());
        }
        Ok(MultilineServerResponse(out))
    }
}

} // verus!
