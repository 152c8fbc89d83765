//! The general laws of the codec, each proved once and for all: the
//! decode/encode round trip, signature rejection, comment tolerance,
//! body truncation, and degenerate sizes.

use vstd::prelude::*;

use crate::codec::body_pixels;
use crate::codec::channel;
use crate::codec::decode_spec;
use crate::codec::encode_spec;
use crate::codec::lemma_find_byte_some;
use crate::codec::next_field_line;
use crate::codec::pixel_or_black;
use crate::error::Error;
use crate::grid::GridView;
use crate::numeral::decimal_digits;
use crate::numeral::is_digit;
use crate::numeral::lemma_decimal_digits;
use crate::numeral::parse_decimal;

verus! {

/// A field line followed by a line feed and the remaining bytes: the
/// header scanner yields exactly that line and that remainder, provided
/// the line holds no line feed and is not a comment.
pub proof fn lemma_next_field_line_plain(line: Seq<u8>, rest: Seq<u8>)
    requires
        forall|j: int| 0 <= j < line.len() ==> line[j] != 0x0A,
        line.len() == 0 || line[0] != 0x23,
    ensures
        next_field_line(line + seq![0x0Au8] + rest) == Some((line, rest)),
{
    let s = line + seq![0x0Au8] + rest;
    let k = line.len() as int;
    assert(s[k] == 0x0A);
    assert forall|j: int| 0 <= j < k implies s[j] != 0x0A by {
        assert(s[j] == line[j]);
    }
    lemma_find_byte_some(s, 0x0A, k);
    assert(s.subrange(0, k) =~= line);
    assert(s.subrange(k + 1, s.len() as int) =~= rest);
}

/// Comment tolerance at the scanner: a `#`-prefixed line standing before
/// the bytes from which any header field is scanned is skipped without
/// changing what is scanned. Every header field is read through
/// [`next_field_line`], so this covers insertion before each of the
/// three fields.
pub proof fn lemma_next_field_line_comment(comment: Seq<u8>, s: Seq<u8>)
    requires
        comment.len() > 0,
        comment[0] == 0x23,
        forall|j: int| 0 <= j < comment.len() ==> comment[j] != 0x0A,
    ensures
        next_field_line(comment + seq![0x0Au8] + s) == next_field_line(s),
{
    let whole = comment + seq![0x0Au8] + s;
    let k = comment.len() as int;
    assert(whole[k] == 0x0A);
    assert forall|j: int| 0 <= j < k implies whole[j] != 0x0A by {
        assert(whole[j] == comment[j]);
    }
    lemma_find_byte_some(whole, 0x0A, k);
    assert(whole.subrange(0, k) =~= comment);
    assert(whole.subrange(k + 1, whole.len() as int) =~= s);
}

/// Comment tolerance at the decoder: a comment line inserted before the
/// whole stream does not change the decoded result.
pub proof fn lemma_decode_comment_prefix(comment: Seq<u8>, bytes: Seq<u8>)
    requires
        comment.len() > 0,
        comment[0] == 0x23,
        forall|j: int| 0 <= j < comment.len() ==> comment[j] != 0x0A,
    ensures
        decode_spec(comment + seq![0x0Au8] + bytes) == decode_spec(bytes),
{
    lemma_next_field_line_comment(comment, bytes);
}

/// Signature rejection: whenever the first non-comment line of the
/// stream is not exactly "P6", decoding fails with
/// [`Error::InvalidSignature`].
pub proof fn lemma_signature_rejection(bytes: Seq<u8>, line: Seq<u8>, rest: Seq<u8>)
    requires
        next_field_line(bytes) == Some((line, rest)),
        line != seq![0x50u8, 0x36u8],
    ensures
        decode_spec(bytes) == Err::<GridView, Error>(Error::InvalidSignature),
{
}

/// Truncation policy: in a decoded body, pixel `j` is the `j`-th complete
/// 3-byte triple of the body data when one exists, and exactly black
/// otherwise; trailing bytes that form no complete triple are ignored.
pub proof fn lemma_truncation(count: int, data: Seq<u8>, j: int)
    requires
        0 <= j < count,
    ensures
        j < data.len() as int / 3 ==> body_pixels(count, data)[j] == (
            data[3 * j],
            data[3 * j + 1],
            data[3 * j + 2],
        ),
        j >= data.len() as int / 3 ==> body_pixels(count, data)[j] == (0u8, 0u8, 0u8),
{
}

/// Degenerate sizes: a well-formed grid with a zero width or height has
/// an empty pixel buffer, and no coordinate at all is in bounds.
pub proof fn lemma_degenerate_size(g: GridView)
    requires
        g.wf(),
        g.width == 0 || g.height == 0,
    ensures
        g.pixels.len() == 0,
        forall|x: usize, y: usize| !g.in_bounds(x, y),
{
    assert(g.width * g.height == 0) by (nonlinear_arith)
        requires
            g.width == 0 || g.height == 0,
    ;
}

/// Round trip: decoding what the encoder emitted for any well-formed
/// grid yields that grid back, with identical width, height, color depth
/// and pixel sequence.
pub proof fn lemma_decode_encode(g: GridView)
    requires
        g.wf(),
    ensures
        decode_spec(encode_spec(g)) == Ok::<GridView, Error>(g),
{
    let w = g.width;
    let h = g.height;
    let d = g.color_depth;
    let dw = decimal_digits(w as int);
    let dh = decimal_digits(h as int);
    let dd = decimal_digits(d as int);
    lemma_decimal_digits(w as int);
    lemma_decimal_digits(h as int);
    lemma_decimal_digits(d as int);
    let body = crate::codec::body_bytes(g);
    let sig = seq![0x50u8, 0x36u8];
    let dims = dw + seq![0x20u8] + dh;
    let bytes = encode_spec(g);
    let rest2 = dd + seq![0x0Au8] + body;
    let rest1 = dims + seq![0x0Au8] + rest2;
    assert(bytes =~= sig + seq![0x0Au8] + rest1);

    // The signature line.
    lemma_next_field_line_plain(sig, rest1);
    assert(next_field_line(bytes) == Some((sig, rest1)));

    // The dimensions line: all digits and one space, so no line feed and
    // no leading comment byte.
    assert(dims[dw.len() as int] == 0x20);
    assert forall|j: int| 0 <= j < dw.len() implies dims[j] == dw[j] by {}
    assert forall|j: int| dw.len() + 1 <= j < dims.len() implies dims[j] == dh[j - dw.len()
        - 1] by {}
    assert forall|j: int| 0 <= j < dims.len() implies dims[j] != 0x0A by {
        if j < dw.len() {
            assert(is_digit(dw[j]));
        } else if j > dw.len() {
            assert(is_digit(dh[j - dw.len() - 1]));
        }
    }
    assert(is_digit(dw[0]));
    lemma_next_field_line_plain(dims, rest2);

    // Splitting the dimensions line at its first space.
    assert forall|j: int| 0 <= j < dw.len() implies dims[j] != 0x20 by {
        assert(is_digit(dw[j]));
    }
    lemma_find_byte_some(dims, 0x20, dw.len() as int);
    assert(dims.subrange(0, dw.len() as int) =~= dw);
    assert(dims.subrange(dw.len() as int + 1, dims.len() as int) =~= dh);
    assert(parse_decimal(dw) == Some(w));
    assert(parse_decimal(dh) == Some(h));

    // The color-depth line.
    assert forall|j: int| 0 <= j < dd.len() implies dd[j] != 0x0A by {
        assert(is_digit(dd[j]));
    }
    assert(is_digit(dd[0]));
    lemma_next_field_line_plain(dd, body);
    assert(parse_decimal(dd) == Some(d));

    // The body: each emitted triple reads back as the pixel it came from.
    let t = w * h;
    assert(t >= 0);
    assert(body.len() == 3 * t);
    assert((3 * t) / 3 == t) by (nonlinear_arith);
    assert(body_pixels(t, body) =~= g.pixels) by {
        assert forall|j: int| 0 <= j < t implies body_pixels(t, body)[j] == g.pixels[j] by {
            assert((3 * j) / 3 == j && (3 * j) % 3 == 0 && (3 * j + 1) / 3 == j && (3 * j + 1) % 3
                == 1 && (3 * j + 2) / 3 == j && (3 * j + 2) % 3 == 2) by (nonlinear_arith);
            assert(body[3 * j] == channel(pixel_or_black(g.pixels, j), 0));
            assert(body[3 * j + 1] == channel(pixel_or_black(g.pixels, j), 1));
            assert(body[3 * j + 2] == channel(pixel_or_black(g.pixels, j), 2));
        }
    }
    assert(GridView { width: w, height: h, color_depth: d, pixels: body_pixels(t, body) } =~= g);
}

/// The byte-for-byte direction of the round trip: when the bytes are
/// themselves encoder output, re-encoding the decoded grid reproduces
/// them exactly.
pub proof fn lemma_encode_decode(bytes: Seq<u8>, g: GridView)
    requires
        g.wf(),
        bytes == encode_spec(g),
    ensures
        match decode_spec(bytes) {
            Ok(decoded) => encode_spec(decoded) == bytes,
            Err(_) => false,
        },
{
    lemma_decode_encode(g);
}

} // verus!

