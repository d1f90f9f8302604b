//! Byte-level text helpers: UTF-8 facts about the source and the few
//! standard-library conversions the lexer needs.
use vstd::prelude::*;
use vstd::utf8::*;

verus! {

broadcast use vstd::seq::group_seq_axioms;

/// The bytes of `s` from `a` to the end.
pub open spec fn suffix(s: Seq<u8>, a: int) -> Seq<u8> {
    s.subrange(a, s.len() as int)
}

/// `String::from_utf8`: succeeds exactly on valid UTF-8, and the string
/// then holds the decoded characters.
#[verifier::external_body]
fn string_from_utf8(bytes: Vec<u8>) -> (r: Option<String>)
    ensures
        r is Some <==> valid_utf8(bytes@),
        r matches Some(s) ==> s@ == decode_utf8(bytes@),
{
    String::from_utf8(bytes).ok()
}

/// `String::from(char)`: the one-character string.
#[verifier::external_body]
pub(crate) fn char_to_string(c: char) -> (r: String)
    ensures
        r@ == seq![c],
{
    String::from(c)
}

/// The text that `{:?}` prints for a `char` (quoted, with escapes).
pub uninterp spec fn char_debug_text(c: char) -> Seq<char>;

/// `format!("{:?}", c)`: the `Debug` rendering of a `char`.
#[verifier::external_body]
pub(crate) fn char_debug(c: char) -> (r: String)
    ensures
        r@ == char_debug_text(c),
{
    format!("{:?}", c)
}

/// Decode a byte buffer already known to be valid UTF-8.
pub fn text_from_bytes(bytes: Vec<u8>) -> (r: String)
    requires
        valid_utf8(bytes@),
    ensures
        r@ == decode_utf8(bytes@),
{
    match string_from_utf8(bytes) {
        Some(s) => s,
        None => String::new(),
    }
}

/// Copy `s[a..b]` into a fresh vector.
pub fn copy_range(s: &[u8], a: usize, b: usize) -> (r: Vec<u8>)
    requires
        a <= b <= s@.len(),
    ensures
        r@ == s@.subrange(a as int, b as int),
{
    let mut v: Vec<u8> = Vec::new();
    let mut i = a;
    while i < b
        invariant
            a <= i <= b <= s@.len(),
            v@ == s@.subrange(a as int, i as int),
        decreases b - i,
    {
        v.push(s[i]);
        i += 1;
        assert(v@ =~= s@.subrange(a as int, i as int));
    }
    v
}

/// Append the UTF-8 encoding of a Unicode scalar value.
pub fn push_scalar(buf: &mut Vec<u8>, code: u32)
    requires
        is_scalar(code),
    ensures
        final(buf)@ == old(buf)@ + encode_scalar(code),
{
    let ghost b0 = buf@;
    if code <= 0x7F {
        buf.push((code & 0x7F) as u8);
    } else if code <= 0x7FF {
        buf.push(0xC0 | ((code >> 6) & 0x1F) as u8);
        buf.push(0x80 | (code & 0x3F) as u8);
    } else if code <= 0xFFFF {
        buf.push(0xE0 | ((code >> 12) & 0x0F) as u8);
        buf.push(0x80 | ((code >> 6) & 0x3F) as u8);
        buf.push(0x80 | (code & 0x3F) as u8);
    } else {
        buf.push(0xF0 | ((code >> 18) & 0x7) as u8);
        buf.push(0x80 | ((code >> 12) & 0x3F) as u8);
        buf.push(0x80 | ((code >> 6) & 0x3F) as u8);
        buf.push(0x80 | (code & 0x3F) as u8);
    }
    assert(buf@ =~= b0 + encode_scalar(code));
}

pub proof fn lemma_empty_valid()
    ensures
        valid_utf8(Seq::<u8>::empty()),
{
}

/// The encoding of a scalar is valid UTF-8.
pub proof fn lemma_scalar_valid(code: u32)
    requires
        is_scalar(code),
    ensures
        valid_utf8(encode_scalar(code)),
{
    let c = code as char;
    assert((c as u32) == code);
    encode_utf8_valid_utf8(seq![c]);
    assert(seq![c].drop_first() =~= Seq::<char>::empty());
    assert(encode_utf8(Seq::<char>::empty()) =~= Seq::<u8>::empty());
    assert(encode_utf8(seq![c]) == encode_scalar(code) + encode_utf8(seq![c].drop_first()));
    assert(encode_utf8(seq![c]) =~= encode_scalar(code));
}

/// Stepping over an ASCII byte keeps the rest valid.
pub proof fn lemma_ascii_step(s: Seq<u8>, p: int)
    requires
        0 <= p < s.len(),
        valid_utf8(suffix(s, p)),
        s[p] <= 0x7f,
    ensures
        valid_utf8(suffix(s, p + 1)),
{
    let t = suffix(s, p);
    assert(t[0] == s[p]);
    assert(pop_first_scalar(t) =~= suffix(s, p + 1));
}

/// Stepping over a run of ASCII bytes keeps the rest valid.
pub proof fn lemma_ascii_run(s: Seq<u8>, p: int, q: int)
    requires
        0 <= p <= q <= s.len(),
        valid_utf8(suffix(s, p)),
        forall|k: int| p <= k < q ==> s[k] <= 0x7f,
    ensures
        valid_utf8(suffix(s, q)),
    decreases q - p,
{
    if p < q {
        lemma_ascii_step(s, p);
        lemma_ascii_run(s, p + 1, q);
    }
}

/// Cutting a valid suffix just before an ASCII byte (or at the end)
/// leaves two valid pieces.
pub proof fn lemma_valid_piece(s: Seq<u8>, a: int, b: int)
    requires
        0 <= a <= b <= s.len(),
        valid_utf8(suffix(s, a)),
        b == s.len() || s[b] <= 0x7f,
    ensures
        valid_utf8(s.subrange(a, b)),
        valid_utf8(suffix(s, b)),
{
    let t = suffix(s, a);
    let i = b - a;
    if b == s.len() {
        assert(t.subrange(0, i) =~= s.subrange(a, b));
        assert(suffix(s, b) =~= Seq::<u8>::empty());
        assert(t =~= s.subrange(a, b));
    } else {
        assert(t[i] == s[b]);
        is_char_boundary_iff_is_leading_byte(t, i);
        valid_utf8_split(t, i);
        assert(t.subrange(0, i) =~= s.subrange(a, b));
        assert(t.subrange(i, t.len() as int) =~= suffix(s, b));
    }
}

/// A sequence of ASCII bytes is valid UTF-8.
pub proof fn lemma_ascii_valid(s: Seq<u8>)
    requires
        forall|k: int| 0 <= k < s.len() ==> s[k] <= 0x7f,
    ensures
        valid_utf8(s),
    decreases s.len(),
{
    if s.len() > 0 {
        assert(pop_first_scalar(s) =~= s.drop_first());
        lemma_ascii_valid(s.drop_first());
    }
}

pub proof fn lemma_concat_valid(a: Seq<u8>, b: Seq<u8>)
    requires
        valid_utf8(a),
        valid_utf8(b),
    ensures
        valid_utf8(a + b),
{
    valid_utf8_concat(a, b);
}

} // verus!
