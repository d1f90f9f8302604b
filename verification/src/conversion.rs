//! Byte offsets to editor positions: 0-based lines and 0-based columns
//! counted in UTF-16 code units, as the Language Server Protocol wants.
use crate::diag::Span;
use crate::lexer_spec::count_newlines;
use vstd::prelude::*;
use vstd::string::StringSliceAdditionalSpecFns;
use vstd::utf8::*;

verus! {

broadcast use vstd::seq::group_seq_axioms;

/// A position in a document: line and UTF-16 column, both from 0.
#[derive(Debug, Clone, Copy, PartialEq, Eq, Structural)]
pub struct Position {
    pub line: u32,
    pub character: u32,
}

/// A range of positions.
#[derive(Debug, Clone, Copy, PartialEq, Eq, Structural)]
pub struct PositionRange {
    pub start: Position,
    pub end: Position,
}

/// `offset` clamped to the end of a text of `len` bytes.
pub open spec fn clamp(offset: int, len: int) -> int {
    if offset < len {
        offset
    } else {
        len
    }
}

/// Where the line holding byte offset `n` starts: just after the last
/// newline before `n`, or 0.
pub open spec fn line_start(s: Seq<u8>, n: int) -> int
    decreases n,
{
    if n <= 0 {
        0
    } else if s[n - 1] == 10 {
        n
    } else {
        line_start(s, n - 1)
    }
}

/// The number of UTF-16 code units that encode the characters `cs`.
pub open spec fn utf16_units(cs: Seq<char>) -> nat
    decreases cs.len(),
{
    if cs.len() == 0 {
        0
    } else {
        (if cs[0] as u32 >= 0x10000 {
            2nat
        } else {
            1nat
        }) + utf16_units(cs.drop_first())
    }
}

/// The position of byte offset `offset` in `s` (clamped to the end): the
/// number of newlines before it, and the UTF-16 length of the text
/// between the start of its line and it (at most `u32::MAX`).
pub open spec fn spec_position(s: Seq<u8>, offset: int) -> (int, int) {
    let c = clamp(offset, s.len() as int);
    let units = utf16_units(decode_utf8(s.subrange(line_start(s, c), c)));
    (
        count_newlines(s, 0, c) as int,
        if units > u32::MAX {
            u32::MAX as int
        } else {
            units as int
        },
    )
}

/// UTF-16 code units contributed by one UTF-8 byte: two for the lead
/// byte of a four-byte sequence, none for a continuation byte, else one.
pub open spec fn byte_units(b: u8) -> nat {
    if 0xf0 <= b <= 0xf7 {
        2
    } else if is_continuation_byte(b) {
        0
    } else {
        1
    }
}

pub open spec fn bytes_units(bs: Seq<u8>) -> nat
    decreases bs.len(),
{
    if bs.len() == 0 {
        0
    } else {
        bytes_units(bs.drop_last()) + byte_units(bs.last())
    }
}

proof fn lemma_bytes_units_concat(a: Seq<u8>, b: Seq<u8>)
    ensures
        bytes_units(a + b) == bytes_units(a) + bytes_units(b),
    decreases b.len(),
{
    if b.len() > 0 {
        assert((a + b).drop_last() =~= a + b.drop_last());
        lemma_bytes_units_concat(a, b.drop_last());
    } else {
        assert(a + b =~= a);
    }
}

proof fn lemma_first_scalar_units(bs: Seq<u8>)
    requires
        valid_utf8(bs),
        bs.len() > 0,
    ensures
        bytes_units(bs.subrange(0, length_of_first_scalar(bs))) == (if decode_first_scalar(bs)
            >= 0x10000 {
            2nat
        } else {
            1nat
        }),
        is_scalar(decode_first_scalar(bs)),
{
    let w = length_of_first_scalar(bs);
    let t = bs.subrange(0, w);
    let b0 = bs[0];
    reveal_with_fuel(bytes_units, 5);
    if w == 1 {
        assert(t.drop_last() =~= Seq::<u8>::empty());
        assert(((b0 & 0x7F) as u32) <= 0x7f) by (bit_vector);
    } else if w == 2 {
        let b1 = bs[1];
        assert(t.drop_last().drop_last() =~= Seq::<u8>::empty());
        assert(((b0 & 0x1F) as u32) << 6 | ((b1 & 0x3f) as u32) <= 0x7ff) by (bit_vector);
    } else if w == 3 {
        let b1 = bs[1];
        let b2 = bs[2];
        assert(t.drop_last().drop_last().drop_last() =~= Seq::<u8>::empty());
        assert(((b0 & 0x0F) as u32) << 12 | (((b1 & 0x3f) as u32) << 6) | ((b2 & 0x3f) as u32)
            <= 0xffff) by (bit_vector);
    } else {
        assert(t.drop_last().drop_last().drop_last().drop_last() =~= Seq::<u8>::empty());
    }
}

/// Counting units byte by byte agrees with counting them character by
/// character.
proof fn lemma_units(bs: Seq<u8>)
    requires
        valid_utf8(bs),
    ensures
        bytes_units(bs) == utf16_units(decode_utf8(bs)),
    decreases bs.len(),
{
    if bs.len() > 0 {
        let w = length_of_first_scalar(bs);
        let head = bs.subrange(0, w);
        let rest = pop_first_scalar(bs);
        assert(bs =~= head + rest);
        lemma_bytes_units_concat(head, rest);
        lemma_first_scalar_units(bs);
        lemma_units(rest);
        let c = decode_first_scalar(bs) as char;
        let cs = decode_utf8(bs);
        assert(cs =~= seq![c] + decode_utf8(rest));
        assert(cs[0] == c);
        assert(cs.drop_first() =~= decode_utf8(rest));
        assert((c as u32) == decode_first_scalar(bs));
    }
}

/// A valid text cut at two character boundaries leaves a valid piece.
proof fn lemma_piece_valid(s: Seq<u8>, a: int, b: int)
    requires
        valid_utf8(s),
        0 <= a <= b <= s.len(),
        is_char_boundary(s, a),
        b == s.len() || is_char_boundary(s, b),
    ensures
        valid_utf8(s.subrange(a, b)),
{
    valid_utf8_split(s, a);
    let t = s.subrange(a, s.len() as int);
    if b == s.len() {
        assert(t =~= s.subrange(a, b));
    } else {
        is_char_boundary_iff_is_leading_byte(s, b);
        assert(t[b - a] == s[b]);
        is_char_boundary_iff_is_leading_byte(t, b - a);
        valid_utf8_split(t, b - a);
        assert(t.subrange(0, b - a) =~= s.subrange(a, b));
    }
}

/// The start of a line is a character boundary.
proof fn lemma_line_start_boundary(s: Seq<u8>, n: int)
    requires
        valid_utf8(s),
        0 <= n <= s.len(),
    ensures
        0 <= line_start(s, n) <= n,
        is_char_boundary(s, line_start(s, n)) || line_start(s, n) == s.len(),
    decreases n,
{
    is_char_boundary_start_end_of_seq(s);
    if n > 0 {
        if s[n - 1] == 10 {
            let k = n - 1;
            is_char_boundary_iff_is_leading_byte(s, k);
            valid_utf8_split(s, k);
            let t = s.subrange(k, s.len() as int);
            assert(t[0] == 10);
            assert(pop_first_scalar(t) =~= s.subrange(n, s.len() as int));
            assert(valid_utf8(pop_first_scalar(t)));
            if n < s.len() {
                let u = s.subrange(n, s.len() as int);
                assert(valid_utf8(u));
                assert(valid_first_scalar(u));
                assert(u[0] == s[n]);
                is_char_boundary_iff_is_leading_byte(s, n);
            }
        } else {
            lemma_line_start_boundary(s, n - 1);
        }
    }
}

pub proof fn lemma_count_newlines_mono(s: Seq<u8>, i: int, j: int)
    requires
        0 <= i <= j <= s.len(),
    ensures
        count_newlines(s, 0, i) <= count_newlines(s, 0, j),
    decreases j - i,
{
    if i < j {
        lemma_count_newlines_mono(s, i, j - 1);
    }
}

/// Map a byte offset (inside `src`, may equal its length) to a
/// [`Position`]. Out-of-range offsets clamp to the end of the document.
pub fn byte_offset_to_position(src: &str, offset: usize) -> (r: Position)
    requires
        count_newlines(src.spec_bytes(), 0, clamp(offset as int, src.spec_bytes().len() as int))
            <= u32::MAX,
        is_char_boundary(src.spec_bytes(), clamp(offset as int, src.spec_bytes().len() as int)),
    ensures
        (r.line as int, r.character as int) == spec_position(src.spec_bytes(), offset as int),
{
    let bytes = src.as_bytes();
    let ghost s = src.spec_bytes();
    let len = bytes.len();
    let clamped = if offset < len {
        offset
    } else {
        len
    };
    let mut line: u32 = 0;
    let mut line_start_byte: usize = 0;
    let mut i: usize = 0;
    while i < clamped
        invariant
            bytes@ == s,
            clamped <= s.len(),
            i <= clamped,
            count_newlines(s, 0, clamped as int) <= u32::MAX,
            line == count_newlines(s, 0, i as int),
            line_start_byte == line_start(s, i as int),
        decreases clamped - i,
    {
        if bytes[i] == 10 {
            proof {
                lemma_count_newlines_mono(s, i + 1, clamped as int);
            }
            line += 1;
            line_start_byte = i + 1;
        }
        i += 1;
    }
    proof {
        encode_utf8_valid_utf8(src@);
        lemma_line_start_boundary(s, clamped as int);
    }
    let mut units: u128 = 0;
    let mut k = line_start_byte;
    while k < clamped
        invariant
            bytes@ == s,
            line_start_byte <= k <= clamped <= s.len(),
            units == bytes_units(s.subrange(line_start_byte as int, k as int)),
            units <= 2 * (k - line_start_byte),
        decreases clamped - k,
    {
        let b = bytes[k];
        let u: u128 = if 0xf0 <= b && b <= 0xf7 {
            2
        } else if 0x80 <= b && b <= 0xbf {
            0
        } else {
            1
        };
        proof {
            assert(s.subrange(line_start_byte as int, k + 1).drop_last() =~= s.subrange(
                line_start_byte as int,
                k as int,
            ));
        }
        units = units + u;
        k += 1;
    }
    proof {
        lemma_piece_valid(s, line_start_byte as int, clamped as int);
        lemma_units(s.subrange(line_start_byte as int, clamped as int));
    }
    let character: u32 = if units > 0xffff_ffff {
        u32::MAX
    } else {
        units as u32
    };
    Position { line, character }
}

/// Map a byte span to a [`PositionRange`].
pub fn span_to_range(src: &str, span: &Span) -> (r: PositionRange)
    requires
        count_newlines(
            src.spec_bytes(),
            0,
            clamp(span.start as int, src.spec_bytes().len() as int),
        ) <= u32::MAX,
        count_newlines(src.spec_bytes(), 0, clamp(span.end as int, src.spec_bytes().len() as int))
            <= u32::MAX,
        is_char_boundary(src.spec_bytes(), clamp(span.start as int, src.spec_bytes().len() as int)),
        is_char_boundary(src.spec_bytes(), clamp(span.end as int, src.spec_bytes().len() as int)),
    ensures
        (r.start.line as int, r.start.character as int) == spec_position(
            src.spec_bytes(),
            span.start as int,
        ),
        (r.end.line as int, r.end.character as int) == spec_position(
            src.spec_bytes(),
            span.end as int,
        ),
{
    let start = byte_offset_to_position(src, span.start);
    let end = byte_offset_to_position(src, span.end);
    PositionRange { start, end }
}

/// The start of any text is the origin: line 0, column 0.
pub proof fn law_start_is_origin(s: Seq<u8>)
    ensures
        spec_position(s, 0) == (0int, 0int),
{
    assert(s.subrange(0, 0) =~= Seq::<u8>::empty());
    assert(decode_utf8(Seq::<u8>::empty()) =~= Seq::<char>::empty());
}

/// Offsets at or past the end of the text all give the position of its
/// end.
pub proof fn law_offsets_clamp_to_end(s: Seq<u8>, offset: int)
    requires
        offset >= s.len(),
    ensures
        spec_position(s, offset) == spec_position(s, s.len() as int),
{
}

} // verus!
