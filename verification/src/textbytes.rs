//! Facts about the UTF-8 encoding of strings, and small helpers shared by the
//! validator, the grammar parser and the statement layer: turning ASCII byte
//! runs into owned strings, and comparing byte slices.
use vstd::prelude::*;
use vstd::string::StringSliceAdditionalSpecFns;
use vstd::utf8::{
    decode_utf8, encode_utf8, is_char_boundary, length_of_first_scalar, pop_first_scalar,
    valid_first_scalar, valid_utf8,
};

verus! {

/// The characters that a run of ASCII bytes spells.
pub open spec fn ascii_chars_of(b: Seq<u8>) -> Seq<char> {
    Seq::new(b.len(), |i: int| b[i] as char)
}

/// The UTF-8 bytes of a character sequence. For a `&str` or `String` value
/// `s`, `utf8_of(s@)` is the byte buffer it owns.
pub open spec fn utf8_of(s: Seq<char>) -> Seq<u8> {
    encode_utf8(s)
}

/// Concatenating two character sequences concatenates their UTF-8 encodings.
pub proof fn lemma_encode_utf8_concat(a: Seq<char>, b: Seq<char>)
    ensures
        encode_utf8(a + b) == encode_utf8(a) + encode_utf8(b),
    decreases a.len(),
{
    if a.len() == 0 {
        assert(a + b =~= b);
        assert(encode_utf8(a) + encode_utf8(b) =~= encode_utf8(b));
    } else {
        assert((a + b).drop_first() =~= a.drop_first() + b);
        lemma_encode_utf8_concat(a.drop_first(), b);
        assert(encode_utf8(a + b) =~= encode_utf8(a) + encode_utf8(b));
    }
}

/// A sequence of bytes below `0x80` is valid UTF-8 and decodes byte for byte.
pub proof fn lemma_ascii_bytes_decode(b: Seq<u8>)
    requires
        forall|i: int| 0 <= i < b.len() ==> b[i] < 0x80,
    ensures
        valid_utf8(b),
        decode_utf8(b) == ascii_chars_of(b),
    decreases b.len(),
{
    reveal_with_fuel(valid_utf8, 2);
    if b.len() == 0 {
        assert(decode_utf8(b) =~= ascii_chars_of(b));
    } else {
        let b0 = b[0];
        assert(b0 & 0x7f == b0) by (bit_vector)
            requires
                b0 < 0x80,
        ;
        assert(valid_first_scalar(b));
        assert(length_of_first_scalar(b) == 1);
        assert(pop_first_scalar(b) =~= b.subrange(1, b.len() as int));
        lemma_ascii_bytes_decode(b.subrange(1, b.len() as int));
        assert(decode_utf8(b) =~= ascii_chars_of(b));
    }
}

/// In valid UTF-8, the position after an ASCII byte that starts a character
/// is again a character boundary.
pub proof fn lemma_boundary_after_ascii(b: Seq<u8>, i: int)
    requires
        valid_utf8(b),
        is_char_boundary(b, i),
        0 <= i < b.len(),
        b[i] < 0x80,
    ensures
        is_char_boundary(b, i + 1),
    decreases b.len(),
{
    reveal_with_fuel(valid_utf8, 2);
    if i == 0 {
        let b0 = b[0];
        assert(b0 & 0x7f == b0) by (bit_vector)
            requires
                b0 < 0x80,
        ;
        assert(length_of_first_scalar(b) == 1);
        reveal_with_fuel(is_char_boundary, 3);
    } else {
        reveal_with_fuel(is_char_boundary, 2);
        let tail = pop_first_scalar(b);
        let step = length_of_first_scalar(b);
        assert(is_char_boundary(tail, i - step));
        assert(1 <= step);
        assert(0 <= i - step < tail.len());
        assert(tail[i - step] == b[i]);
        lemma_boundary_after_ascii(tail, i - step);
    }
}

/// The error type of `core::str::from_utf8`, opaque to this crate.
#[verifier::external_type_specification]
#[verifier::external_body]
pub struct ExUtf8Error(core::str::Utf8Error);

/// Relies on `core::str::from_utf8`: it returns the slice as a string
/// exactly when the slice is valid UTF-8.
pub assume_specification[ core::str::from_utf8 ](v: &[u8]) -> (r: Result<
    &str,
    core::str::Utf8Error,
>)
    ensures
        r is Ok <==> valid_utf8(v@),
        r is Ok ==> r->Ok_0.spec_bytes() == v@,
;

/// Turns a run of ASCII bytes into the owned string spelling them.
pub fn ascii_to_string(v: &[u8]) -> (s: String)
    requires
        forall|i: int| 0 <= i < v@.len() ==> v@[i] < 0x80,
    ensures
        utf8_of(s@) == v@,
        s@ == ascii_chars_of(v@),
{
    proof {
        lemma_ascii_bytes_decode(v@);
    }
    match core::str::from_utf8(v) {
        Ok(t) => {
            proof {
                vstd::utf8::encode_utf8_decode_utf8(t@);
                vstd::utf8::decode_utf8_encode_utf8(v@);
            }
            assert(t@ == ascii_chars_of(v@));
            t.to_owned()
        },
        Err(_) => vstd::pervasive::unreached(),
    }
}

/// Whether two strings spell the same characters.
pub fn str_eq(a: &str, b: &str) -> (r: bool)
    ensures
        r == (a@ == b@),
{
    let r = bytes_eq(a.as_bytes(), b.as_bytes());
    proof {
        vstd::utf8::encode_utf8_decode_utf8(a@);
        vstd::utf8::encode_utf8_decode_utf8(b@);
    }
    r
}

/// The position of the first occurrence of `c` in `t` at or after `i`, or
/// the length of `t` when there is none.
pub open spec fn find_ch(t: Seq<char>, i: int, c: char) -> int
    decreases t.len() - i,
    when 0 <= i <= t.len()
{
    if i >= t.len() {
        t.len() as int
    } else if t[i] == c {
        i
    } else {
        find_ch(t, i + 1, c)
    }
}

/// What `find_ch` yields is in range, `c` where it is not the end, and
/// nothing before it is `c`.
pub proof fn lemma_find_ch(t: Seq<char>, i: int, c: char)
    requires
        0 <= i <= t.len(),
    ensures
        i <= find_ch(t, i, c) <= t.len(),
        find_ch(t, i, c) < t.len() ==> t[find_ch(t, i, c)] == c,
        forall|k: int| i <= k < find_ch(t, i, c) ==> t[k] != c,
    decreases t.len() - i,
{
    if i < t.len() && t[i] != c {
        lemma_find_ch(t, i + 1, c);
    }
}

/// Finds the first occurrence of `c` in `s` at or after `from`; yields the
/// length of `s` when there is none.
pub fn find_char(s: &str, from: usize, c: char) -> (r: usize)
    requires
        from <= s@.len(),
    ensures
        r == find_ch(s@, from as int, c),
        from <= r <= s@.len(),
{
    proof {
        lemma_find_ch(s@, from as int, c);
    }
    let n = s.unicode_len();
    let mut i = from;
    while i < n && s.get_char(i) != c
        invariant
            from <= i <= n == s@.len(),
            find_ch(s@, from as int, c) == find_ch(s@, i as int, c),
        decreases n - i,
    {
        i = i + 1;
    }
    i
}

/// Whether two byte slices hold the same bytes.
pub fn bytes_eq(a: &[u8], b: &[u8]) -> (r: bool)
    ensures
        r == (a@ == b@),
{
    if a.len() != b.len() {
        assert(a@ != b@);
        return false;
    }
    let n = a.len();
    let mut i: usize = 0;
    while i < n
        invariant
            0 <= i <= n,
            n == a@.len() == b@.len(),
            forall|k: int| 0 <= k < i ==> a@[k] == b@[k],
        decreases n - i,
    {
        if a[i] != b[i] {
            assert(a@ != b@);
            return false;
        }
        i = i + 1;
    }
    assert(a@ =~= b@);
    true
}

/// Whether `p` is a prefix of `s`.
pub open spec fn is_prefix_of(p: Seq<u8>, s: Seq<u8>) -> bool {
    p.len() <= s.len() && p == s.subrange(0, p.len() as int)
}

/// Decides [`is_prefix_of`].
pub fn bytes_prefix(p: &[u8], s: &[u8]) -> (r: bool)
    ensures
        r == is_prefix_of(p@, s@),
{
    if p.len() > s.len() {
        return false;
    }
    let n = p.len();
    let mut i: usize = 0;
    while i < n
        invariant
            0 <= i <= n == p@.len(),
            n <= s@.len(),
            forall|k: int| 0 <= k < i ==> p@[k] == s@[k],
        decreases n - i,
    {
        if p[i] != s[i] {
            assert(p@[i as int] != s@.subrange(0, n as int)[i as int]);
            return false;
        }
        i = i + 1;
    }
    assert(p@ =~= s@.subrange(0, n as int));
    true
}

} // verus!
