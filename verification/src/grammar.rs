//! The recursive-descent grammar parser for `addr-spec`, `quoted-string`,
//! `domain-literal`, `name-addr` and `mailbox`, per RFC 5322 section 3.
//!
//! Each rule has a specification-level functional parser over the input
//! bytes and an executable twin proved equal to it. Rules attempt a match at
//! a position and either return the position after the match (with the value
//! ranges the rule produces) or fail without consuming anything; alternatives
//! are ordered, as in the grammar.
use vstd::prelude::*;

use crate::chars::{
    is_ascii_space_b, is_atext_ascii_b, is_dtext_b, is_qtext_ascii_b, is_vchar_b, is_wsp_b, AT, CR,
    DOT, ESC, LBRACKET, LF, QUOTE, RBRACKET, SP,
};

verus! {

/// The byte value of `<`.
pub const LANGLE: u8 = 0x3C;

/// The byte value of `>`.
pub const RANGLE: u8 = 0x3E;

/// The whitespace class, as a value.
pub open spec fn wsp_pred() -> spec_fn(u8) -> bool {
    |b: u8| is_wsp_b(b)
}

/// The strict-ASCII `atext` class, as a value.
pub open spec fn atext_pred() -> spec_fn(u8) -> bool {
    |b: u8| is_atext_ascii_b(b)
}

/// The padding-whitespace class, as a value.
pub open spec fn space_pred() -> spec_fn(u8) -> bool {
    |b: u8| is_ascii_space_b(b)
}

/// The position after the longest run of bytes satisfying `p`, from `i` on.
pub open spec fn run_while(s: Seq<u8>, i: int, p: spec_fn(u8) -> bool) -> int
    decreases s.len() - i,
{
    if 0 <= i < s.len() && p(s[i]) {
        run_while(s, i + 1, p)
    } else {
        i
    }
}

/// A run starts at its start, ends within the input, and every byte it
/// covers satisfies the class.
pub proof fn lemma_run_while(s: Seq<u8>, i: int, p: spec_fn(u8) -> bool)
    requires
        0 <= i <= s.len(),
    ensures
        i <= run_while(s, i, p) <= s.len(),
        forall|k: int| i <= k < run_while(s, i, p) ==> p(s[k]),
    decreases s.len() - i,
{
    if i < s.len() && p(s[i]) {
        lemma_run_while(s, i + 1, p);
    }
}

/// Folding whitespace, `FWS = [*WSP CRLF] 1*WSP`: the position after it,
/// or `None` when there is none at `i`.
pub open spec fn spec_fws(s: Seq<u8>, i: int) -> Option<int> {
    let j = run_while(s, i, wsp_pred());
    let k = if j + 1 < s.len() && s[j] == CR && s[j + 1] == LF {
        j + 2
    } else {
        i
    };
    if k < s.len() && is_wsp_b(s[k]) {
        Some(run_while(s, k, wsp_pred()))
    } else {
        None
    }
}

/// The position after optional folding whitespace. Comments are out of
/// scope, so this also reads optional `CFWS`.
pub open spec fn opt_fws(s: Seq<u8>, i: int) -> int {
    match spec_fws(s, i) {
        Some(j) => j,
        None => i,
    }
}

/// Optional folding whitespace stays within the input and moves forward,
/// over whitespace and CRLF bytes only.
pub proof fn lemma_opt_fws(s: Seq<u8>, i: int)
    requires
        0 <= i <= s.len(),
    ensures
        i <= opt_fws(s, i) <= s.len(),
        forall|k: int| i <= k < opt_fws(s, i) ==> s[k] < 0x80,
{
    lemma_run_while(s, i, wsp_pred());
    let j = run_while(s, i, wsp_pred());
    if j + 1 < s.len() && s[j] == CR && s[j + 1] == LF {
        lemma_run_while(s, j + 2, wsp_pred());
    }
}

/// Runs [`run_while`] for the whitespace class.
fn run_wsp(s: &[u8], i: usize) -> (r: usize)
    requires
        i <= s@.len(),
    ensures
        r == run_while(s@, i as int, wsp_pred()),
        i <= r <= s@.len(),
{
    let n = s.len();
    let mut j = i;
    while j < n && (s[j] == SP || s[j] == 0x09)
        invariant
            i <= j <= n == s@.len(),
            run_while(s@, i as int, wsp_pred()) == run_while(s@, j as int, wsp_pred()),
        decreases n - j,
    {
        j = j + 1;
    }
    j
}

/// Runs [`run_while`] for the strict-ASCII `atext` class.
fn run_atext(s: &[u8], i: usize) -> (r: usize)
    requires
        i <= s@.len(),
    ensures
        r == run_while(s@, i as int, atext_pred()),
        i <= r <= s@.len(),
{
    let n = s.len();
    let mut j = i;
    while j < n && crate::chars::atext_ascii_b(s[j])
        invariant
            i <= j <= n == s@.len(),
            run_while(s@, i as int, atext_pred()) == run_while(s@, j as int, atext_pred()),
        decreases n - j,
    {
        j = j + 1;
    }
    j
}

/// Runs [`run_while`] for the padding-whitespace class.
fn run_space(s: &[u8], i: usize) -> (r: usize)
    requires
        i <= s@.len(),
    ensures
        r == run_while(s@, i as int, space_pred()),
        i <= r <= s@.len(),
{
    let n = s.len();
    let mut j = i;
    while j < n && crate::chars::ascii_space_b(s[j])
        invariant
            i <= j <= n == s@.len(),
            run_while(s@, i as int, space_pred()) == run_while(s@, j as int, space_pred()),
        decreases n - j,
    {
        j = j + 1;
    }
    j
}

/// Reads optional folding whitespace; returns the position after it.
fn read_opt_fws(s: &[u8], i: usize) -> (r: usize)
    requires
        i <= s@.len(),
    ensures
        r == opt_fws(s@, i as int),
        i <= r <= s@.len(),
{
    proof {
        lemma_opt_fws(s@, i as int);
    }
    let n = s.len();
    let j = run_wsp(s, i);
    let k = if j < n && s[j] == CR && j + 1 < n && s[j + 1] == LF {
        j + 2
    } else {
        i
    };
    if k < n && crate::chars::wsp_b(s[k]) {
        run_wsp(s, k)
    } else {
        i
    }
}

/// One or more `atext` bytes: the position after them, or `None`.
pub open spec fn spec_atext_seg(s: Seq<u8>, i: int) -> Option<int> {
    if i < s.len() && is_atext_ascii_b(s[i]) {
        Some(run_while(s, i, atext_pred()))
    } else {
        None
    }
}

/// The rest of dot-atom-text after its first segment: follows each `.` that
/// is itself followed by `atext`, consuming the segment after it.
pub open spec fn dat_tail(s: Seq<u8>, j: int) -> int
    decreases s.len() - j,
    when 0 <= j <= s.len()
    via dat_tail_dec
{
    if j + 1 < s.len() && s[j] == DOT && is_atext_ascii_b(s[j + 1]) {
        dat_tail(s, run_while(s, j + 1, atext_pred()))
    } else {
        j
    }
}

#[via_fn]
proof fn dat_tail_dec(s: Seq<u8>, j: int) {
    if j + 1 < s.len() && s[j] == DOT && is_atext_ascii_b(s[j + 1]) {
        lemma_run_while(s, j + 1, atext_pred());
        assert(run_while(s, j + 1, atext_pred()) == run_while(s, j + 2, atext_pred()));
        lemma_run_while(s, j + 2, atext_pred());
    }
}

/// The tail of dot-atom-text stays within the input and moves only over
/// dots and `atext` bytes.
pub proof fn lemma_dat_tail(s: Seq<u8>, j: int)
    requires
        0 <= j <= s.len(),
    ensures
        j <= dat_tail(s, j) <= s.len(),
        forall|k: int| j <= k < dat_tail(s, j) ==> s[k] == DOT || is_atext_ascii_b(s[k]),
    decreases s.len() - j,
{
    if j + 1 < s.len() && s[j] == DOT && is_atext_ascii_b(s[j + 1]) {
        lemma_run_while(s, j + 1, atext_pred());
        assert(run_while(s, j + 1, atext_pred()) == run_while(s, j + 2, atext_pred()));
        lemma_run_while(s, j + 2, atext_pred());
        lemma_dat_tail(s, run_while(s, j + 1, atext_pred()));
    }
}

/// `dot-atom-text = 1*atext *("." 1*atext)`: the position after it, or
/// `None` when no `atext` byte stands at `i`.
pub open spec fn spec_dot_atom_text(s: Seq<u8>, i: int) -> Option<int> {
    match spec_atext_seg(s, i) {
        Some(t) => Some(dat_tail(s, t)),
        None => None,
    }
}

/// `dot-atom = [CFWS] dot-atom-text [CFWS]`: the position after it and the
/// range of the dot-atom-text itself, without the surrounding whitespace.
pub open spec fn spec_dot_atom(s: Seq<u8>, i: int) -> Option<(int, int, int)> {
    let a = opt_fws(s, i);
    match spec_dot_atom_text(s, a) {
        Some(t) => Some((opt_fws(s, t), a, t)),
        None => None,
    }
}

/// `atom = [CFWS] 1*atext [CFWS]`: the position after it and the range of
/// the `atext` run itself.
pub open spec fn spec_atom(s: Seq<u8>, i: int) -> Option<(int, int, int)> {
    let a = opt_fws(s, i);
    match spec_atext_seg(s, a) {
        Some(t) => Some((opt_fws(s, t), a, t)),
        None => None,
    }
}

/// A matched dot-atom moves forward, stays within the input, and its value
/// range holds only ASCII bytes.
pub proof fn lemma_dot_atom(s: Seq<u8>, i: int)
    requires
        0 <= i <= s.len(),
        spec_dot_atom(s, i) is Some,
    ensures
        ({
            let (e, vs, ve) = spec_dot_atom(s, i)->Some_0;
            &&& i <= vs < ve <= e <= s.len()
            &&& i < e
            &&& forall|k: int| vs <= k < ve ==> s[k] < 0x80
        }),
{
    lemma_opt_fws(s, i);
    let a = opt_fws(s, i);
    assert(atext_pred()(s[a]));
    assert(run_while(s, a, atext_pred()) == run_while(s, a + 1, atext_pred()));
    lemma_run_while(s, a + 1, atext_pred());
    lemma_run_while(s, a, atext_pred());
    lemma_dat_tail(s, run_while(s, a, atext_pred()));
    let t = dat_tail(s, run_while(s, a, atext_pred()));
    lemma_opt_fws(s, t);
}

/// A matched atom moves forward, stays within the input, and its value
/// range holds only ASCII bytes.
pub proof fn lemma_atom(s: Seq<u8>, i: int)
    requires
        0 <= i <= s.len(),
        spec_atom(s, i) is Some,
    ensures
        ({
            let (e, vs, ve) = spec_atom(s, i)->Some_0;
            &&& i <= vs < ve <= e <= s.len()
            &&& i < e
            &&& forall|k: int| vs <= k < ve ==> s[k] < 0x80
        }),
{
    lemma_opt_fws(s, i);
    let a = opt_fws(s, i);
    assert(atext_pred()(s[a]));
    assert(run_while(s, a, atext_pred()) == run_while(s, a + 1, atext_pred()));
    lemma_run_while(s, a + 1, atext_pred());
    lemma_run_while(s, a, atext_pred());
    lemma_opt_fws(s, run_while(s, a, atext_pred()));
}

/// Reads `dot-atom-text` at `i`.
fn read_dot_atom_text(s: &[u8], i: usize) -> (r: Option<usize>)
    requires
        i <= s@.len(),
    ensures
        match r {
            Some(t) => spec_dot_atom_text(s@, i as int) == Some(t as int) && i <= t <= s@.len(),
            None => spec_dot_atom_text(s@, i as int) is None,
        },
{
    let n = s.len();
    if !(i < n && crate::chars::atext_ascii_b(s[i])) {
        return None;
    }
    let mut j = run_atext(s, i);
    while j < n && s[j] == DOT && j + 1 < n && crate::chars::atext_ascii_b(s[j + 1])
        invariant
            i <= j <= n == s@.len(),
            dat_tail(s@, run_while(s@, i as int, atext_pred())) == dat_tail(s@, j as int),
        decreases n - j,
    {
        proof {
            lemma_run_while(s@, j + 1, atext_pred());
            assert(run_while(s@, j + 1, atext_pred()) == run_while(s@, j + 2, atext_pred()));
        }
        j = run_atext(s, j + 1);
    }
    Some(j)
}

/// Reads `dot-atom` at `i`.
fn read_dot_atom(s: &[u8], i: usize) -> (r: Option<(usize, usize, usize)>)
    requires
        i <= s@.len(),
    ensures
        match r {
            Some((e, vs, ve)) => spec_dot_atom(s@, i as int) == Some(
                (e as int, vs as int, ve as int),
            ) && e <= s@.len(),
            None => spec_dot_atom(s@, i as int) is None,
        },
{
    let a = read_opt_fws(s, i);
    match read_dot_atom_text(s, a) {
        Some(t) => {
            let e = read_opt_fws(s, t);
            Some((e, a, t))
        },
        None => None,
    }
}

/// Reads `atom` at `i`.
fn read_atom(s: &[u8], i: usize) -> (r: Option<(usize, usize, usize)>)
    requires
        i <= s@.len(),
    ensures
        match r {
            Some((e, vs, ve)) => spec_atom(s@, i as int) == Some((e as int, vs as int, ve as int))
                && e <= s@.len(),
            None => spec_atom(s@, i as int) is None,
        },
{
    let a = read_opt_fws(s, i);
    let n = s.len();
    if a < n && crate::chars::atext_ascii_b(s[a]) {
        let t = run_atext(s, a);
        let e = read_opt_fws(s, t);
        Some((e, a, t))
    } else {
        None
    }
}

/// One step of quoted content: `qtext`, or a quoted pair `\` + `VCHAR`.
pub open spec fn qc_step(s: Seq<u8>, j: int) -> Option<int> {
    if j < s.len() && is_qtext_ascii_b(s[j]) {
        Some(j + 1)
    } else if j + 1 < s.len() && s[j] == ESC && is_vchar_b(s[j + 1]) {
        Some(j + 2)
    } else {
        None
    }
}

/// The interior of a quoted string, `*([FWS] qcontent)`: the position after
/// the last complete step. A step whose content fails is not consumed.
pub open spec fn qs_inner(s: Seq<u8>, i: int) -> int
    decreases s.len() - i,
    when 0 <= i <= s.len()
    via qs_inner_dec
{
    let j = opt_fws(s, i);
    match qc_step(s, j) {
        Some(k) => qs_inner(s, k),
        None => i,
    }
}

#[via_fn]
proof fn qs_inner_dec(s: Seq<u8>, i: int) {
    lemma_opt_fws(s, i);
}

/// The quoted-string interior stays within the input and moves only over
/// ASCII bytes.
pub proof fn lemma_qs_inner(s: Seq<u8>, i: int)
    requires
        0 <= i <= s.len(),
    ensures
        i <= qs_inner(s, i) <= s.len(),
        forall|k: int| i <= k < qs_inner(s, i) ==> s[k] < 0x80,
    decreases s.len() - i,
{
    lemma_opt_fws(s, i);
    let j = opt_fws(s, i);
    match qc_step(s, j) {
        Some(k) => {
            lemma_qs_inner(s, k);
        },
        None => {},
    }
}

/// The result of reading a quoted string: the position after the whole rule,
/// the opening and closing quote positions, and the content range between
/// the opening quote and the last quoted content.
pub ghost struct QsMatch {
    /// The position after the rule, trailing whitespace included.
    pub end: int,
    /// The position of the opening quote.
    pub q_open: int,
    /// The position of the closing quote.
    pub q_close: int,
    /// Where the stripped content ends; it begins right after the opening
    /// quote.
    pub c_end: int,
}

/// `quoted-string = [CFWS] DQUOTE *([FWS] qcontent) [FWS] DQUOTE [CFWS]`.
pub open spec fn spec_quoted_string(s: Seq<u8>, i: int) -> Option<QsMatch> {
    let a = opt_fws(s, i);
    if a < s.len() && s[a] == QUOTE {
        let ce = qs_inner(s, a + 1);
        let b = opt_fws(s, ce);
        if b < s.len() && s[b] == QUOTE {
            Some(QsMatch { end: opt_fws(s, b + 1), q_open: a, q_close: b, c_end: ce })
        } else {
            None
        }
    } else {
        None
    }
}

/// A matched quoted string moves forward, stays within the input, and the
/// bytes from its opening to its closing quote are ASCII.
pub proof fn lemma_quoted_string(s: Seq<u8>, i: int)
    requires
        0 <= i <= s.len(),
        spec_quoted_string(s, i) is Some,
    ensures
        ({
            let q = spec_quoted_string(s, i)->Some_0;
            &&& i <= q.q_open < q.q_close < q.end <= s.len()
            &&& q.q_open < q.q_open + 1 <= q.c_end <= q.q_close
            &&& forall|k: int| q.q_open <= k <= q.q_close ==> s[k] < 0x80
        }),
{
    lemma_opt_fws(s, i);
    let a = opt_fws(s, i);
    lemma_qs_inner(s, a + 1);
    let ce = qs_inner(s, a + 1);
    lemma_opt_fws(s, ce);
    let b = opt_fws(s, ce);
    lemma_opt_fws(s, b + 1);
}

/// Reads `quoted-string` at `i`, returning `(end, q_open, q_close, c_end)`.
fn read_quoted_string(s: &[u8], i: usize) -> (r: Option<(usize, usize, usize, usize)>)
    requires
        i <= s@.len(),
    ensures
        match r {
            Some((e, qo, qc, ce)) => spec_quoted_string(s@, i as int) == Some(
                QsMatch { end: e as int, q_open: qo as int, q_close: qc as int, c_end: ce as int },
            ) && e <= s@.len(),
            None => spec_quoted_string(s@, i as int) is None,
        },
{
    let n = s.len();
    let a = read_opt_fws(s, i);
    if !(a < n && s[a] == QUOTE) {
        return None;
    }
    let mut j = a + 1;
    loop
        invariant
            i <= a < n == s@.len(),
            a == opt_fws(s@, i as int),
            s@[a as int] == QUOTE,
            a + 1 <= j <= n,
            qs_inner(s@, a + 1) == qs_inner(s@, j as int),
        decreases n - j,
    {
        let f = read_opt_fws(s, j);
        if f < n && crate::chars::qtext_ascii_b(s[f]) {
            j = f + 1;
        } else if f < n && s[f] == ESC && f + 1 < n && crate::chars::vchar_b(s[f + 1]) {
            j = f + 2;
        } else {
            // The interior ends here: the byte after the optional folding
            // whitespace must be the closing quote.
            assert(qc_step(s@, f as int) is None);
            assert(qs_inner(s@, j as int) == j);
            if f < n && s[f] == QUOTE {
                let e = read_opt_fws(s, f + 1);
                return Some((e, a, f, j));
            }
            return None;
        }
    }
}

/// `word = atom / quoted-string`, with the quotes stripped from a quoted
/// word: the position after it and the range of the word's value.
pub open spec fn spec_word(s: Seq<u8>, i: int) -> Option<(int, int, int)> {
    match spec_atom(s, i) {
        Some(r) => Some(r),
        None => match spec_quoted_string(s, i) {
            Some(q) => Some((q.end, q.q_open + 1, q.c_end)),
            None => None,
        },
    }
}

/// A matched word moves forward, stays within the input, and its value
/// range holds only ASCII bytes.
pub proof fn lemma_word(s: Seq<u8>, i: int)
    requires
        0 <= i <= s.len(),
        spec_word(s, i) is Some,
    ensures
        ({
            let (e, vs, ve) = spec_word(s, i)->Some_0;
            &&& i <= vs <= ve <= s.len()
            &&& i < e <= s.len()
            &&& ve <= e
            &&& forall|k: int| vs <= k < ve ==> s[k] < 0x80
        }),
{
    if spec_atom(s, i) is Some {
        lemma_atom(s, i);
    } else {
        lemma_quoted_string(s, i);
    }
}

/// Reads `word` at `i`.
fn read_word(s: &[u8], i: usize) -> (r: Option<(usize, usize, usize)>)
    requires
        i <= s@.len(),
    ensures
        match r {
            Some((e, vs, ve)) => spec_word(s@, i as int) == Some((e as int, vs as int, ve as int))
                && e <= s@.len() && vs <= ve <= s@.len(),
            None => spec_word(s@, i as int) is None,
        },
{
    match read_atom(s, i) {
        Some(r) => {
            proof {
                lemma_atom(s@, i as int);
            }
            Some(r)
        },
        None => match read_quoted_string(s, i) {
            Some((e, qo, qc, ce)) => {
                proof {
                    lemma_quoted_string(s@, i as int);
                }
                Some((e, qo + 1, ce))
            },
            None => None,
        },
    }
}

/// The rest of a phrase after its first word: each further word's value is
/// appended to the display name after a single space.
pub open spec fn phrase_tail(s: Seq<u8>, j: int, acc: Seq<u8>) -> (int, Seq<u8>)
    decreases s.len() - j,
    when 0 <= j <= s.len()
    via phrase_tail_dec
{
    match spec_word(s, j) {
        Some((k, vs, ve)) => phrase_tail(s, k, acc + seq![SP] + s.subrange(vs, ve)),
        None => (j, acc),
    }
}

#[via_fn]
proof fn phrase_tail_dec(s: Seq<u8>, j: int, acc: Seq<u8>) {
    if spec_word(s, j) is Some {
        lemma_word(s, j);
    }
}

/// The phrase tail stays within the input and appends only ASCII bytes.
pub proof fn lemma_phrase_tail(s: Seq<u8>, j: int, acc: Seq<u8>)
    requires
        0 <= j <= s.len(),
        forall|k: int| 0 <= k < acc.len() ==> acc[k] < 0x80,
    ensures
        ({
            let (e, v) = phrase_tail(s, j, acc);
            &&& j <= e <= s.len()
            &&& forall|k: int| 0 <= k < v.len() ==> v[k] < 0x80
        }),
    decreases s.len() - j,
{
    match spec_word(s, j) {
        Some((k, vs, ve)) => {
            lemma_word(s, j);
            let acc2 = acc + seq![SP] + s.subrange(vs, ve);
            assert(forall|m: int| 0 <= m < acc2.len() ==> acc2[m] < 0x80);
            lemma_phrase_tail(s, k, acc2);
        },
        None => {},
    }
}

/// `display-name = phrase = 1*word`, with quotes stripped from each word
/// and the words joined by single spaces: the position after the phrase and
/// the display name it spells.
pub open spec fn spec_display_name(s: Seq<u8>, i: int) -> Option<(int, Seq<u8>)> {
    match spec_word(s, i) {
        Some((k, vs, ve)) => Some(phrase_tail(s, k, s.subrange(vs, ve))),
        None => None,
    }
}

/// A matched display name moves forward, stays within the input, and spells
/// only ASCII bytes.
pub proof fn lemma_display_name(s: Seq<u8>, i: int)
    requires
        0 <= i <= s.len(),
        spec_display_name(s, i) is Some,
    ensures
        ({
            let (e, v) = spec_display_name(s, i)->Some_0;
            &&& i < e <= s.len()
            &&& forall|k: int| 0 <= k < v.len() ==> v[k] < 0x80
        }),
{
    lemma_word(s, i);
    let (k, vs, ve) = spec_word(s, i)->Some_0;
    lemma_phrase_tail(s, k, s.subrange(vs, ve));
}

/// Appends `s[from..to]` to `v`.
fn push_range(v: &mut Vec<u8>, s: &[u8], from: usize, to: usize)
    requires
        from <= to <= s@.len(),
    ensures
        final(v)@ == old(v)@ + s@.subrange(from as int, to as int),
{
    let mut k = from;
    while k < to
        invariant
            from <= k <= to <= s@.len(),
            v@ == old(v)@ + s@.subrange(from as int, k as int),
        decreases to - k,
    {
        v.push(s[k]);
        proof {
            assert(v@ =~= old(v)@ + s@.subrange(from as int, k + 1));
        }
        k = k + 1;
    }
    proof {
        assert(v@ =~= old(v)@ + s@.subrange(from as int, to as int));
    }
}

/// Reads `display-name` at `i`, returning the position after it and the
/// display name's bytes.
fn read_display_name(s: &[u8], i: usize) -> (r: Option<(usize, Vec<u8>)>)
    requires
        i <= s@.len(),
    ensures
        match r {
            Some((e, v)) => spec_display_name(s@, i as int) == Some((e as int, v@)) && e
                <= s@.len(),
            None => spec_display_name(s@, i as int) is None,
        },
{
    let (mut j, vs, ve) = match read_word(s, i) {
        Some(w) => w,
        None => {
            return None;
        },
    };
    let mut acc: Vec<u8> = Vec::new();
    push_range(&mut acc, s, vs, ve);
    loop
        invariant
            j <= s@.len(),
            spec_display_name(s@, i as int) == Some(phrase_tail(s@, j as int, acc@)),
        decreases s@.len() - j,
    {
        match read_word(s, j) {
            Some((k, ws, we)) => {
                proof {
                    lemma_word(s@, j as int);
                }
                let ghost acc0 = acc@;
                acc.push(SP);
                push_range(&mut acc, s, ws, we);
                proof {
                    assert(acc@ =~= acc0 + seq![SP] + s@.subrange(ws as int, we as int));
                }
                j = k;
            },
            None => {
                return Some((j, acc));
            },
        }
    }
}

/// One step of domain-literal content: `dtext`, or a quoted pair.
pub open spec fn dc_step(s: Seq<u8>, j: int) -> Option<int> {
    if j < s.len() && is_dtext_b(s[j]) {
        Some(j + 1)
    } else if j + 1 < s.len() && s[j] == ESC && is_vchar_b(s[j + 1]) {
        Some(j + 2)
    } else {
        None
    }
}

/// The interior of a domain literal, `*([FWS] dcontent)`.
pub open spec fn dl_inner(s: Seq<u8>, i: int) -> int
    decreases s.len() - i,
    when 0 <= i <= s.len()
    via dl_inner_dec
{
    let j = opt_fws(s, i);
    match dc_step(s, j) {
        Some(k) => dl_inner(s, k),
        None => i,
    }
}

#[via_fn]
proof fn dl_inner_dec(s: Seq<u8>, i: int) {
    lemma_opt_fws(s, i);
}

/// The domain-literal interior stays within the input and moves only over
/// ASCII bytes.
pub proof fn lemma_dl_inner(s: Seq<u8>, i: int)
    requires
        0 <= i <= s.len(),
    ensures
        i <= dl_inner(s, i) <= s.len(),
        forall|k: int| i <= k < dl_inner(s, i) ==> s[k] < 0x80,
    decreases s.len() - i,
{
    lemma_opt_fws(s, i);
    let j = opt_fws(s, i);
    match dc_step(s, j) {
        Some(k) => {
            lemma_dl_inner(s, k);
        },
        None => {},
    }
}

/// The position after an optional CRLF pair.
pub open spec fn opt_crlf(s: Seq<u8>, i: int) -> int {
    if i + 1 < s.len() && s[i] == CR && s[i + 1] == LF {
        i + 2
    } else {
        i
    }
}

/// `domain-literal = [CRLF] "[" *([FWS] dcontent) [FWS] "]" [CRLF]`: the
/// position after it and the range of the bracketed literal, brackets
/// included.
pub open spec fn spec_domain_literal(s: Seq<u8>, i: int) -> Option<(int, int, int)> {
    let a = opt_crlf(s, i);
    if a < s.len() && s[a] == LBRACKET {
        let ce = dl_inner(s, a + 1);
        let b = opt_fws(s, ce);
        if b < s.len() && s[b] == RBRACKET {
            Some((opt_crlf(s, b + 1), a, b + 1))
        } else {
            None
        }
    } else {
        None
    }
}

/// A matched domain literal moves forward, stays within the input, and its
/// bracketed range holds only ASCII bytes.
pub proof fn lemma_domain_literal(s: Seq<u8>, i: int)
    requires
        0 <= i <= s.len(),
        spec_domain_literal(s, i) is Some,
    ensures
        ({
            let (e, vs, ve) = spec_domain_literal(s, i)->Some_0;
            &&& i <= vs < ve <= s.len()
            &&& i < e <= s.len()
            &&& ve <= e
            &&& forall|k: int| vs <= k < ve ==> s[k] < 0x80
        }),
{
    let a = opt_crlf(s, i);
    lemma_dl_inner(s, a + 1);
    let ce = dl_inner(s, a + 1);
    lemma_opt_fws(s, ce);
}

/// Reads `domain-literal` at `i`.
fn read_domain_literal(s: &[u8], i: usize) -> (r: Option<(usize, usize, usize)>)
    requires
        i <= s@.len(),
    ensures
        match r {
            Some((e, vs, ve)) => spec_domain_literal(s@, i as int) == Some(
                (e as int, vs as int, ve as int),
            ) && e <= s@.len() && vs <= ve <= s@.len(),
            None => spec_domain_literal(s@, i as int) is None,
        },
{
    let n = s.len();
    let a = if i < n && s[i] == CR && i + 1 < n && s[i + 1] == LF {
        i + 2
    } else {
        i
    };
    if !(a < n && s[a] == LBRACKET) {
        return None;
    }
    let mut j = a + 1;
    loop
        invariant
            i <= a < n == s@.len(),
            a == opt_crlf(s@, i as int),
            s@[a as int] == LBRACKET,
            a + 1 <= j <= n,
            dl_inner(s@, a + 1) == dl_inner(s@, j as int),
        decreases n - j,
    {
        let f = read_opt_fws(s, j);
        if f < n && crate::chars::dtext_b(s[f]) {
            j = f + 1;
        } else if f < n && s[f] == ESC && f + 1 < n && crate::chars::vchar_b(s[f + 1]) {
            j = f + 2;
        } else {
            assert(dc_step(s@, f as int) is None);
            assert(dl_inner(s@, j as int) == j);
            if f < n && s[f] == RBRACKET {
                let e = if f + 1 < n && s[f + 1] == CR && f + 2 < n && s[f + 2] == LF {
                    f + 3
                } else {
                    f + 1
                };
                return Some((e, a, f + 1));
            }
            return None;
        }
    }
}

/// `local-part = quoted-string / dot-atom`: the position after it and the
/// range of its value; a quoted local part keeps its quotes.
pub open spec fn spec_local_part(s: Seq<u8>, i: int) -> Option<(int, int, int)> {
    match spec_quoted_string(s, i) {
        Some(q) => Some((q.end, q.q_open, q.q_close + 1)),
        None => spec_dot_atom(s, i),
    }
}

/// `domain = domain-literal / dot-atom`: the position after it and the
/// range of its value; a literal keeps its brackets.
pub open spec fn spec_domain(s: Seq<u8>, i: int) -> Option<(int, int, int)> {
    match spec_domain_literal(s, i) {
        Some(r) => Some(r),
        None => spec_dot_atom(s, i),
    }
}

/// A matched local part moves forward and its value range holds only ASCII
/// bytes.
pub proof fn lemma_local_part(s: Seq<u8>, i: int)
    requires
        0 <= i <= s.len(),
        spec_local_part(s, i) is Some,
    ensures
        ({
            let (e, vs, ve) = spec_local_part(s, i)->Some_0;
            &&& i <= vs < ve <= s.len()
            &&& i < e <= s.len()
            &&& ve <= e
            &&& forall|k: int| vs <= k < ve ==> s[k] < 0x80
        }),
{
    if spec_quoted_string(s, i) is Some {
        lemma_quoted_string(s, i);
    } else {
        lemma_dot_atom(s, i);
    }
}

/// A matched domain moves forward and its value range holds only ASCII
/// bytes.
pub proof fn lemma_domain(s: Seq<u8>, i: int)
    requires
        0 <= i <= s.len(),
        spec_domain(s, i) is Some,
    ensures
        ({
            let (e, vs, ve) = spec_domain(s, i)->Some_0;
            &&& i <= vs < ve <= s.len()
            &&& i < e <= s.len()
            &&& ve <= e
            &&& forall|k: int| vs <= k < ve ==> s[k] < 0x80
        }),
{
    if spec_domain_literal(s, i) is Some {
        lemma_domain_literal(s, i);
    } else {
        lemma_dot_atom(s, i);
    }
}

/// Reads `local-part` at `i`.
fn read_local_part(s: &[u8], i: usize) -> (r: Option<(usize, usize, usize)>)
    requires
        i <= s@.len(),
    ensures
        match r {
            Some((e, vs, ve)) => spec_local_part(s@, i as int) == Some(
                (e as int, vs as int, ve as int),
            ) && e <= s@.len() && vs <= ve <= s@.len(),
            None => spec_local_part(s@, i as int) is None,
        },
{
    match read_quoted_string(s, i) {
        Some((e, qo, qc, _ce)) => {
            proof {
                lemma_quoted_string(s@, i as int);
            }
            Some((e, qo, qc + 1))
        },
        None => {
            proof {
                if spec_dot_atom(s@, i as int) is Some {
                    lemma_dot_atom(s@, i as int);
                }
            }
            read_dot_atom(s, i)
        },
    }
}

/// Reads `domain` at `i`.
fn read_domain(s: &[u8], i: usize) -> (r: Option<(usize, usize, usize)>)
    requires
        i <= s@.len(),
    ensures
        match r {
            Some((e, vs, ve)) => spec_domain(s@, i as int) == Some((e as int, vs as int, ve as int))
                && e <= s@.len() && vs <= ve <= s@.len(),
            None => spec_domain(s@, i as int) is None,
        },
{
    match read_domain_literal(s, i) {
        Some(r) => Some(r),
        None => {
            proof {
                if spec_dot_atom(s@, i as int) is Some {
                    lemma_dot_atom(s@, i as int);
                }
            }
            read_dot_atom(s, i)
        },
    }
}

/// `addr-spec = local-part "@" domain`: the position after it and the
/// ranges of the local part and the domain.
pub open spec fn spec_addr_spec(s: Seq<u8>, i: int) -> Option<(int, (int, int), (int, int))> {
    match spec_local_part(s, i) {
        Some((j, ls, le)) => {
            if j < s.len() && s[j] == AT {
                match spec_domain(s, j + 1) {
                    Some((k, ds, de)) => Some((k, (ls, le), (ds, de))),
                    None => None,
                }
            } else {
                None
            }
        },
        None => None,
    }
}

/// A matched addr-spec moves forward and both value ranges hold only ASCII
/// bytes.
pub proof fn lemma_addr_spec(s: Seq<u8>, i: int)
    requires
        0 <= i <= s.len(),
        spec_addr_spec(s, i) is Some,
    ensures
        ({
            let (e, (ls, le), (ds, de)) = spec_addr_spec(s, i)->Some_0;
            &&& i <= ls < le <= s.len()
            &&& le <= ds < de <= s.len()
            &&& i < e <= s.len()
            &&& (forall|k: int| ls <= k < le ==> s[k] < 0x80)
            &&& (forall|k: int| ds <= k < de ==> s[k] < 0x80)
        }),
{
    lemma_local_part(s, i);
    let (j, ls, le) = spec_local_part(s, i)->Some_0;
    lemma_domain(s, j + 1);
}

/// Reads `addr-spec` at `i`.
fn read_addr_spec(s: &[u8], i: usize) -> (r: Option<(usize, (usize, usize), (usize, usize))>)
    requires
        i <= s@.len(),
    ensures
        match r {
            Some((e, (ls, le), (ds, de))) => spec_addr_spec(s@, i as int) == Some(
                (e as int, (ls as int, le as int), (ds as int, de as int)),
            ) && e <= s@.len() && ls <= le <= s@.len() && ds <= de <= s@.len(),
            None => spec_addr_spec(s@, i as int) is None,
        },
{
    let n = s.len();
    match read_local_part(s, i) {
        Some((j, ls, le)) => {
            if j < n && s[j] == AT {
                match read_domain(s, j + 1) {
                    Some((k, ds, de)) => Some((k, (ls, le), (ds, de))),
                    None => None,
                }
            } else {
                None
            }
        },
        None => None,
    }
}

/// `angle-addr = "<" addr-spec ">"`.
pub open spec fn spec_angle_addr(s: Seq<u8>, i: int) -> Option<(int, (int, int), (int, int))> {
    if i < s.len() && s[i] == LANGLE {
        match spec_addr_spec(s, i + 1) {
            Some((j, l, d)) => {
                if j < s.len() && s[j] == RANGLE {
                    Some((j + 1, l, d))
                } else {
                    None
                }
            },
            None => None,
        }
    } else {
        None
    }
}

/// Reads `angle-addr` at `i`.
fn read_angle_addr(s: &[u8], i: usize) -> (r: Option<(usize, (usize, usize), (usize, usize))>)
    requires
        i <= s@.len(),
    ensures
        match r {
            Some((e, (ls, le), (ds, de))) => spec_angle_addr(s@, i as int) == Some(
                (e as int, (ls as int, le as int), (ds as int, de as int)),
            ) && e <= s@.len() && ls <= le <= s@.len() && ds <= de <= s@.len(),
            None => spec_angle_addr(s@, i as int) is None,
        },
{
    let n = s.len();
    if i < n && s[i] == LANGLE {
        match read_addr_spec(s, i + 1) {
            Some((j, l, d)) => {
                if j < n && s[j] == RANGLE {
                    Some((j + 1, l, d))
                } else {
                    None
                }
            },
            None => None,
        }
    } else {
        None
    }
}

/// The decomposition a successful mailbox parse yields: an optional display
/// name and the local-part and domain ranges.
pub open spec fn spec_name_addr(s: Seq<u8>, i: int) -> Option<
    (int, Option<Seq<u8>>, (int, int), (int, int)),
> {
    let p = run_while(s, i, space_pred());
    let q = match spec_display_name(s, p) {
        Some((e, _v)) => e,
        None => p,
    };
    let name = match spec_display_name(s, p) {
        Some((_e, v)) => Some(v),
        None => None,
    };
    let r = run_while(s, q, space_pred());
    match spec_angle_addr(s, r) {
        Some((e, l, d)) => Some((e, name, l, d)),
        None => None,
    }
}

/// Reads `name-addr` at `i`.
fn read_name_addr(s: &[u8], i: usize) -> (r: Option<
    (usize, Option<Vec<u8>>, (usize, usize), (usize, usize)),
>)
    requires
        i <= s@.len(),
    ensures
        match r {
            Some((e, name, (ls, le), (ds, de))) => {
                &&& spec_name_addr(s@, i as int) matches Some((se, sname, sl, sd))
                &&& se == e && sl == (ls as int, le as int) && sd == (ds as int, de as int)
                &&& match (name, sname) {
                    (Some(v), Some(sv)) => v@ == sv,
                    (None, None) => true,
                    _ => false,
                }
                &&& e <= s@.len() && ls <= le <= s@.len() && ds <= de <= s@.len()
            },
            None => spec_name_addr(s@, i as int) is None,
        },
{
    let p = run_space(s, i);
    let (q, name) = match read_display_name(s, p) {
        Some((e, v)) => {
            proof {
                lemma_display_name(s@, p as int);
            }
            (e, Some(v))
        },
        None => (p, None),
    };
    let r = run_space(s, q);
    match read_angle_addr(s, r) {
        Some((e, l, d)) => Some((e, name, l, d)),
        None => None,
    }
}

/// `mailbox = name-addr / addr-spec`, as a rule: the position after the
/// chosen alternative, the optional display name, and the value ranges.
pub open spec fn spec_mailbox_rule(s: Seq<u8>, i: int) -> Option<
    (int, Option<Seq<u8>>, (int, int), (int, int)),
> {
    match spec_name_addr(s, i) {
        Some(r) => Some(r),
        None => match spec_addr_spec(s, i) {
            Some((e, l, d)) => Some((e, None, l, d)),
            None => None,
        },
    }
}

/// A full mailbox parse: the rule must consume the whole input. Yields the
/// optional display name and the local-part and domain bytes.
pub open spec fn spec_mailbox(s: Seq<u8>) -> Option<(Option<Seq<u8>>, Seq<u8>, Seq<u8>)> {
    match spec_mailbox_rule(s, 0) {
        Some((e, name, (ls, le), (ds, de))) => {
            if e == s.len() {
                Some((name, s.subrange(ls, le), s.subrange(ds, de)))
            } else {
                None
            }
        },
        None => None,
    }
}

/// The pieces of a successful full mailbox parse are ASCII.
pub proof fn lemma_mailbox_ascii(s: Seq<u8>)
    requires
        spec_mailbox(s) is Some,
    ensures
        ({
            let (name, local, domain) = spec_mailbox(s)->Some_0;
            &&& forall|k: int| 0 <= k < local.len() ==> local[k] < 0x80
            &&& forall|k: int| 0 <= k < domain.len() ==> domain[k] < 0x80
            &&& match name {
                Some(v) => forall|k: int| 0 <= k < v.len() ==> v[k] < 0x80,
                None => true,
            }
        }),
{
    match spec_name_addr(s, 0) {
        Some((e, name, (ls, le), (ds, de))) => {
            let p = run_while(s, 0, space_pred());
            lemma_run_while(s, 0, space_pred());
            if spec_display_name(s, p) is Some {
                lemma_display_name(s, p);
            }
            let q = match spec_display_name(s, p) {
                Some((e2, _v)) => e2,
                None => p,
            };
            lemma_run_while(s, q, space_pred());
            let r = run_while(s, q, space_pred());
            lemma_addr_spec(s, r + 1);
        },
        None => {
            lemma_addr_spec(s, 0);
        },
    }
}

/// Copies `s[from..to]`, a run of ASCII bytes, into an owned string.
fn string_from_range(s: &[u8], from: usize, to: usize) -> (r: String)
    requires
        from <= to <= s@.len(),
        forall|k: int| from <= k < to ==> s@[k] < 0x80,
    ensures
        r@ == crate::textbytes::ascii_chars_of(s@.subrange(from as int, to as int)),
        crate::textbytes::utf8_of(r@) == s@.subrange(from as int, to as int),
{
    let mut v: Vec<u8> = Vec::new();
    push_range(&mut v, s, from, to);
    proof {
        assert(v@ =~= s@.subrange(from as int, to as int));
    }
    crate::textbytes::ascii_to_string(v.as_slice())
}

/// Parses a whole input as a `quoted-string`, quotes kept.
pub fn parse_quoted_string(s: &str) -> (r: Option<String>)
    ensures
        ({
            let b = crate::textbytes::utf8_of(s@);
            match r {
                Some(v) => {
                    &&& spec_quoted_string(b, 0) matches Some(q)
                    &&& q.end == b.len()
                    &&& crate::textbytes::utf8_of(v@) == b.subrange(q.q_open, q.q_close + 1)
                },
                None => !(spec_quoted_string(b, 0) matches Some(q) && q.end == b.len()),
            }
        }),
{
    let bytes = s.as_bytes();
    let n = bytes.len();
    match read_quoted_string(bytes, 0) {
        Some((e, qo, qc, _ce)) if e == n => {
            proof {
                lemma_quoted_string(bytes@, 0);
            }
            Some(string_from_range(bytes, qo, qc + 1))
        },
        _ => None,
    }
}

/// Parses a whole input as a `quoted-string`, quotes stripped.
pub fn parse_quoted_string_strip_quotes(s: &str) -> (r: Option<String>)
    ensures
        ({
            let b = crate::textbytes::utf8_of(s@);
            match r {
                Some(v) => {
                    &&& spec_quoted_string(b, 0) matches Some(q)
                    &&& q.end == b.len()
                    &&& crate::textbytes::utf8_of(v@) == b.subrange(q.q_open + 1, q.c_end)
                },
                None => !(spec_quoted_string(b, 0) matches Some(q) && q.end == b.len()),
            }
        }),
{
    let bytes = s.as_bytes();
    let n = bytes.len();
    match read_quoted_string(bytes, 0) {
        Some((e, qo, _qc, ce)) if e == n => {
            proof {
                lemma_quoted_string(bytes@, 0);
                lemma_qs_inner(bytes@, qo + 1);
            }
            Some(string_from_range(bytes, qo + 1, ce))
        },
        _ => None,
    }
}

/// Parses a whole input as a `display-name`: one or more words, quotes
/// stripped, joined by single spaces.
pub fn parse_display_name(s: &str) -> (r: Option<String>)
    ensures
        ({
            let b = crate::textbytes::utf8_of(s@);
            match r {
                Some(v) => {
                    &&& spec_display_name(b, 0) matches Some((e, dn))
                    &&& e == b.len()
                    &&& v@ == crate::textbytes::ascii_chars_of(dn)
                },
                None => !(spec_display_name(b, 0) matches Some((e, dn)) && e == b.len()),
            }
        }),
{
    let bytes = s.as_bytes();
    let n = bytes.len();
    match read_display_name(bytes, 0) {
        Some((e, v)) if e == n => {
            proof {
                lemma_display_name(bytes@, 0);
                assert(spec_display_name(bytes@, 0) is Some);
                assert(v@ == spec_display_name(bytes@, 0)->Some_0.1);
                assert(forall|k: int| 0 <= k < v@.len() ==> v@[k] < 0x80);
            }
            Some(crate::textbytes::ascii_to_string(v.as_slice()))
        },
        _ => None,
    }
}

/// Parses a whole input as a `domain`: a domain literal or a dot-atom.
pub fn parse_domain(s: &str) -> (r: Option<String>)
    ensures
        ({
            let b = crate::textbytes::utf8_of(s@);
            match r {
                Some(v) => {
                    &&& spec_domain(b, 0) matches Some((e, vs, ve))
                    &&& e == b.len()
                    &&& crate::textbytes::utf8_of(v@) == b.subrange(vs, ve)
                },
                None => !(spec_domain(b, 0) matches Some((e, vs, ve)) && e == b.len()),
            }
        }),
{
    let bytes = s.as_bytes();
    let n = bytes.len();
    match read_domain(bytes, 0) {
        Some((e, vs, ve)) if e == n => {
            proof {
                lemma_domain(bytes@, 0);
            }
            Some(string_from_range(bytes, vs, ve))
        },
        _ => None,
    }
}

/// Parses a whole input as a `domain-literal`, brackets kept.
pub fn parse_domain_literal(s: &str) -> (r: Option<String>)
    ensures
        ({
            let b = crate::textbytes::utf8_of(s@);
            match r {
                Some(v) => {
                    &&& spec_domain_literal(b, 0) matches Some((e, vs, ve))
                    &&& e == b.len()
                    &&& crate::textbytes::utf8_of(v@) == b.subrange(vs, ve)
                },
                None => !(spec_domain_literal(b, 0) matches Some((e, vs, ve)) && e == b.len()),
            }
        }),
{
    let bytes = s.as_bytes();
    let n = bytes.len();
    match read_domain_literal(bytes, 0) {
        Some((e, vs, ve)) if e == n => {
            proof {
                lemma_domain_literal(bytes@, 0);
            }
            Some(string_from_range(bytes, vs, ve))
        },
        _ => None,
    }
}

/// Parses a whole input as an `addr-spec`, yielding the local part and the
/// domain.
pub fn parse_addr_spec(s: &str) -> (r: Option<(String, String)>)
    ensures
        ({
            let b = crate::textbytes::utf8_of(s@);
            match r {
                Some((l, d)) => {
                    &&& spec_addr_spec(b, 0) matches Some((e, (ls, le), (ds, de)))
                    &&& e == b.len()
                    &&& crate::textbytes::utf8_of(l@) == b.subrange(ls, le)
                    &&& crate::textbytes::utf8_of(d@) == b.subrange(ds, de)
                },
                None => !(spec_addr_spec(b, 0) matches Some((e, _l, _d)) && e == b.len()),
            }
        }),
{
    let bytes = s.as_bytes();
    let n = bytes.len();
    match read_addr_spec(bytes, 0) {
        Some((e, (ls, le), (ds, de))) if e == n => {
            proof {
                lemma_addr_spec(bytes@, 0);
            }
            Some((string_from_range(bytes, ls, le), string_from_range(bytes, ds, de)))
        },
        _ => None,
    }
}

/// Reads a whole input as a `mailbox`.
pub fn read_mailbox(s: &[u8]) -> (r: Option<(Option<Vec<u8>>, Vec<u8>, Vec<u8>)>)
    ensures
        match r {
            Some((name, local, domain)) => {
                &&& spec_mailbox(s@) matches Some((sname, slocal, sdomain))
                &&& local@ == slocal && domain@ == sdomain
                &&& match (name, sname) {
                    (Some(v), Some(sv)) => v@ == sv,
                    (None, None) => true,
                    _ => false,
                }
            },
            None => spec_mailbox(s@) is None,
        },
{
    let n = s.len();
    let parsed = match read_name_addr(s, 0) {
        Some(r) => Some(r),
        None => match read_addr_spec(s, 0) {
            Some((e, l, d)) => Some((e, None, l, d)),
            None => None,
        },
    };
    match parsed {
        Some((e, name, (ls, le), (ds, de))) => {
            if e == n {
                let mut local: Vec<u8> = Vec::new();
                push_range(&mut local, s, ls, le);
                let mut domain: Vec<u8> = Vec::new();
                push_range(&mut domain, s, ds, de);
                proof {
                    assert(local@ =~= s@.subrange(ls as int, le as int));
                    assert(domain@ =~= s@.subrange(ds as int, de as int));
                }
                Some((name, local, domain))
            } else {
                None
            }
        },
        None => None,
    }
}

} // verus!
