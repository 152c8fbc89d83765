//! The codec: decoding a raw byte stream into a [`Ppm`] grid and encoding
//! a grid back into the same byte layout.
//!
//! The byte layout is:
//!
//! ```text
//! "P6" 0x0A
//! <width-decimal> 0x20 <height-decimal> 0x0A
//! <color-depth-decimal> 0x0A
//! <red><green><blue> ... (width * height raw triples, row-major)
//! ```
//!
//! On decode, any line whose first byte is `#` (0x23) may stand before any
//! header field and is skipped. The encoder never emits comments.

use vstd::prelude::*;

use crate::color::Color;
use crate::error::Error;
use crate::grid::GridView;
use crate::grid::Ppm;
use crate::numeral::decimal_digits;
use crate::numeral::parse_decimal;
use crate::numeral::parse_decimal_token;
use crate::numeral::push_decimal_digits;

verus! {

/// The index of the first occurrence of `b` in `s`, if any.
pub open spec fn find_byte(s: Seq<u8>, b: u8) -> Option<int>
    decreases s.len(),
{
    if s.len() == 0 {
        None
    } else if s[0] == b {
        Some(0)
    } else {
        match find_byte(s.drop_first(), b) {
            None => None,
            Some(i) => Some(i + 1),
        }
    }
}

/// What [`find_byte`] finds is the first occurrence: it lies in range,
/// holds `b`, and nothing before it does; and when nothing is found, no
/// position holds `b`.
pub proof fn lemma_find_byte(s: Seq<u8>, b: u8)
    ensures
        match find_byte(s, b) {
            Some(i) => 0 <= i < s.len() && s[i] == b && (forall|j: int| 0 <= j < i ==> s[j] != b),
            None => forall|j: int| 0 <= j < s.len() ==> s[j] != b,
        },
    decreases s.len(),
{
    if s.len() > 0 && s[0] != b {
        lemma_find_byte(s.drop_first(), b);
        match find_byte(s.drop_first(), b) {
            Some(i) => {
                assert(s[i + 1] == s.drop_first()[i]);
                assert forall|j: int| 0 <= j < i + 1 implies s[j] != b by {
                    if j > 0 {
                        assert(s.drop_first()[j - 1] == s[j]);
                    }
                }
            },
            None => {
                assert forall|j: int| 0 <= j < s.len() implies s[j] != b by {
                    if j > 0 {
                        assert(s.drop_first()[j - 1] == s[j]);
                    }
                }
            },
        }
    }
}

/// A witness for the first occurrence of `b` pins [`find_byte`] down.
pub proof fn lemma_find_byte_some(s: Seq<u8>, b: u8, k: int)
    requires
        0 <= k < s.len(),
        s[k] == b,
        forall|j: int| 0 <= j < k ==> s[j] != b,
    ensures
        find_byte(s, b) == Some(k),
    decreases s.len(),
{
    if k > 0 {
        assert(s.drop_first()[k - 1] == s[k]);
        assert forall|j: int| 0 <= j < k - 1 implies s.drop_first()[j] != b by {
            assert(s.drop_first()[j] == s[j + 1]);
        }
        lemma_find_byte_some(s.drop_first(), b, k - 1);
    }
}

/// When no position holds `b`, [`find_byte`] finds nothing.
pub proof fn lemma_find_byte_none(s: Seq<u8>, b: u8)
    requires
        forall|j: int| 0 <= j < s.len() ==> s[j] != b,
    ensures
        find_byte(s, b) == None::<int>,
    decreases s.len(),
{
    if s.len() > 0 {
        assert forall|j: int| 0 <= j < s.drop_first().len() implies s.drop_first()[j] != b by {
            assert(s.drop_first()[j] == s[j + 1]);
        }
        lemma_find_byte_none(s.drop_first(), b);
    }
}

/// The next header field line of `s` and the bytes after it: the content
/// before the first line feed, skipping any comment lines (lines whose
/// first byte is `#`). `None` when no line feed terminates a field line.
pub open spec fn next_field_line(s: Seq<u8>) -> Option<(Seq<u8>, Seq<u8>)>
    decreases s.len(),
    via next_field_line_decreases
{
    match find_byte(s, 0x0A) {
        None => None,
        Some(i) => {
            let line = s.subrange(0, i);
            let rest = s.subrange(i + 1, s.len() as int);
            if line.len() > 0 && line[0] == 0x23 {
                next_field_line(rest)
            } else {
                Some((line, rest))
            }
        },
    }
}

#[via_fn]
proof fn next_field_line_decreases(s: Seq<u8>) {
    lemma_find_byte(s, 0x0A);
}

/// The pixel triple at `j`, or black when `j` lies outside the buffer.
pub open spec fn pixel_or_black(pixels: Seq<(u8, u8, u8)>, j: int) -> (u8, u8, u8) {
    if 0 <= j < pixels.len() {
        pixels[j]
    } else {
        (0u8, 0u8, 0u8)
    }
}

/// The pixel buffer that decoding a body of raw bytes yields for a grid of
/// `count` pixels: pixel `j` is the `j`-th complete 3-byte triple of
/// `data` when one exists, and black otherwise. Bytes beyond `count`
/// complete triples, and any trailing incomplete triple, are ignored.
pub open spec fn body_pixels(count: int, data: Seq<u8>) -> Seq<(u8, u8, u8)>
    recommends
        count >= 0,
{
    Seq::new(
        count as nat,
        |j: int|
            if j < data.len() as int / 3 {
                (data[3 * j], data[3 * j + 1], data[3 * j + 2])
            } else {
                (0u8, 0u8, 0u8)
            },
    )
}

/// What decoding a byte stream yields.
///
/// The header is scanned as three states in order: the signature line must
/// be exactly "P6"; the dimensions line splits at its first space into two
/// decimal fields; the color-depth line is one decimal field. Comment
/// lines may stand before any of the three. Running out of line feeds
/// before the dimensions are read is [`Error::UnexpectedEof`], as is a
/// dimensions line without a space; a field that does not parse, a missing
/// color-depth line, or dimensions whose product cannot be addressed is
/// [`Error::InvalidFormat`]. All bytes after the color-depth line form the
/// pixel body, read as [`body_pixels`] describes.
pub open spec fn decode_spec(bytes: Seq<u8>) -> Result<GridView, Error> {
    match next_field_line(bytes) {
        None => Err(Error::UnexpectedEof),
        Some((sig, after_sig)) => if sig != seq![0x50u8, 0x36u8] {
            Err(Error::InvalidSignature)
        } else {
            match next_field_line(after_sig) {
                None => Err(Error::UnexpectedEof),
                Some((dims, after_dims)) => match find_byte(dims, 0x20) {
                    None => Err(Error::UnexpectedEof),
                    Some(sp) => {
                        let wtok = dims.subrange(0, sp);
                        let htok = dims.subrange(sp + 1, dims.len() as int);
                        match (parse_decimal(wtok), parse_decimal(htok)) {
                            (Some(w), Some(h)) => match next_field_line(after_dims) {
                                None => Err(Error::InvalidFormat),
                                Some((depth_line, body)) => match parse_decimal(depth_line) {
                                    None => Err(Error::InvalidFormat),
                                    Some(d) => if w * h > usize::MAX {
                                        Err(Error::InvalidFormat)
                                    } else {
                                        Ok(
                                            GridView {
                                                width: w,
                                                height: h,
                                                color_depth: d,
                                                pixels: body_pixels(w * h, body),
                                            },
                                        )
                                    },
                                },
                            },
                            _ => Err(Error::InvalidFormat),
                        }
                    },
                },
            }
        },
    }
}

/// The `k`-th channel of a triple, in red, green, blue order.
pub open spec fn channel(p: (u8, u8, u8), k: int) -> u8 {
    if k == 0 {
        p.0
    } else if k == 1 {
        p.1
    } else {
        p.2
    }
}

/// The first `count` pixels of the grid as raw bytes: three channel
/// bytes per pixel, each pixel taken from the buffer, or black where the
/// buffer is shorter.
pub open spec fn body_bytes_prefix(g: GridView, count: int) -> Seq<u8> {
    Seq::new((3 * count) as nat, |i: int| channel(pixel_or_black(g.pixels, i / 3), i % 3))
}

/// The raw pixel body that encoding a grid emits: `width * height`
/// consecutive triples in row-major order, each pixel taken from the
/// buffer, or black where the buffer is shorter than the declared shape.
pub open spec fn body_bytes(g: GridView) -> Seq<u8> {
    body_bytes_prefix(g, g.width * g.height)
}

/// What encoding a grid emits: the "P6" signature line, the dimensions
/// line, the color-depth line, then the raw pixel body. No comments are
/// ever emitted.
pub open spec fn encode_spec(g: GridView) -> Seq<u8> {
    seq![0x50u8, 0x36u8, 0x0Au8] + decimal_digits(g.width as int) + seq![0x20u8]
        + decimal_digits(g.height as int) + seq![0x0Au8] + decimal_digits(g.color_depth as int)
        + seq![0x0Au8] + body_bytes(g)
}

/// Finds the first occurrence of `b` in `bytes[start..end]`, exactly as
/// [`find_byte`] describes. The returned position is absolute.
fn find_byte_in(bytes: &[u8], start: usize, end: usize, b: u8) -> (r: Option<usize>)
    requires
        start <= end <= bytes@.len(),
    ensures
        match r {
            Some(k) => start <= k < end && find_byte(
                bytes@.subrange(start as int, end as int),
                b,
            ) == Some(k - start),
            None => find_byte(bytes@.subrange(start as int, end as int), b) == None::<int>,
        },
{
    let ghost s = bytes@.subrange(start as int, end as int);
    let mut i: usize = start;
    while i < end
        invariant
            start <= i <= end <= bytes@.len(),
            s == bytes@.subrange(start as int, end as int),
            forall|j: int| 0 <= j < i - start ==> s[j] != b,
        decreases end - i,
    {
        proof {
            assert(s[i - start] == bytes@[i as int]);
        }
        if bytes[i] == b {
            proof {
                lemma_find_byte_some(s, b, i - start);
            }
            return Some(i);
        }
        i = i + 1;
    }
    proof {
        lemma_find_byte_none(s, b);
    }
    None
}

/// Finds the next header field line from `start`: skips comment lines and
/// returns the bounds `(ls, le)` of the first field line, whose content is
/// `bytes[ls..le]` with `bytes[le]` the terminating line feed. Exactly
/// what [`next_field_line`] yields on the bytes from `start` on.
fn next_field(bytes: &[u8], start: usize) -> (r: Option<(usize, usize)>)
    requires
        start <= bytes@.len(),
    ensures
        match r {
            Some((ls, le)) => start <= ls <= le < bytes@.len() && next_field_line(
                bytes@.subrange(start as int, bytes@.len() as int),
            ) == Some(
                (
                    bytes@.subrange(ls as int, le as int),
                    bytes@.subrange(le + 1, bytes@.len() as int),
                ),
            ),
            None => next_field_line(bytes@.subrange(start as int, bytes@.len() as int))
                == None::<(Seq<u8>, Seq<u8>)>,
        },
{
    let n = bytes.len();
    let mut cur: usize = start;
    loop
        invariant
            start <= cur <= n == bytes@.len(),
            next_field_line(bytes@.subrange(start as int, n as int)) == next_field_line(
                bytes@.subrange(cur as int, n as int),
            ),
        decreases n - cur,
    {
        let ghost suf = bytes@.subrange(cur as int, n as int);
        match find_byte_in(bytes, cur, n, 0x0A) {
            None => {
                return None;
            },
            Some(le) => {
                proof {
                    assert(suf.subrange(0, le - cur) =~= bytes@.subrange(cur as int, le as int));
                    assert(suf.subrange(le - cur + 1, suf.len() as int) =~= bytes@.subrange(
                        le + 1,
                        n as int,
                    ));
                }
                if le > cur && bytes[cur] == 0x23 {
                    proof {
                        assert(suf[0] == bytes@[cur as int]);
                    }
                    cur = le + 1;
                } else {
                    proof {
                        if le > cur {
                            assert(suf[0] == bytes@[cur as int]);
                        }
                    }
                    return Some((cur, le));
                }
            },
        }
    }
}

impl Ppm {
    /// Decodes a raw byte stream into a pixel grid, exactly as
    /// [`decode_spec`] describes: the three header fields are scanned with
    /// comment lines skipped, then the remaining bytes fill the grid as
    /// complete triples, leaving any pixels past the available data black.
    pub fn from_bytes(bytes: &[u8]) -> (r: Result<Ppm, Error>)
        ensures
            match r {
                Ok(p) => decode_spec(bytes@) == Ok::<GridView, Error>(p@) && p@.wf(),
                Err(e) => decode_spec(bytes@) == Err::<GridView, Error>(e),
            },
    {
        let n = bytes.len();
        proof {
            assert(bytes@.subrange(0, n as int) =~= bytes@);
        }
        let (sig_start, sig_end) = match next_field(bytes, 0) {
            None => {
                return Err(Error::UnexpectedEof);
            },
            Some(bounds) => bounds,
        };
        let ghost sig = bytes@.subrange(sig_start as int, sig_end as int);
        if !(sig_end - sig_start == 2 && bytes[sig_start] == 0x50 && bytes[sig_start + 1] == 0x36) {
            proof {
                if sig == seq![0x50u8, 0x36u8] {
                    assert(sig.len() == 2);
                    assert(bytes@[sig_start as int] == sig[0]);
                    assert(bytes@[sig_start + 1] == sig[1]);
                }
            }
            return Err(Error::InvalidSignature);
        }
        proof {
            assert(sig =~= seq![0x50u8, 0x36u8]);
        }
        let (dims_start, dims_end) = match next_field(bytes, sig_end + 1) {
            None => {
                return Err(Error::UnexpectedEof);
            },
            Some(bounds) => bounds,
        };
        let ghost dims = bytes@.subrange(dims_start as int, dims_end as int);
        let space = match find_byte_in(bytes, dims_start, dims_end, 0x20) {
            None => {
                return Err(Error::UnexpectedEof);
            },
            Some(k) => k,
        };
        proof {
            assert(dims.subrange(0, space - dims_start) =~= bytes@.subrange(
                dims_start as int,
                space as int,
            ));
            assert(dims.subrange(space - dims_start + 1, dims.len() as int) =~= bytes@.subrange(
                space + 1,
                dims_end as int,
            ));
        }
        let width = match parse_decimal_token(bytes, dims_start, space) {
            None => {
                return Err(Error::InvalidFormat);
            },
            Some(w) => w,
        };
        let height = match parse_decimal_token(bytes, space + 1, dims_end) {
            None => {
                return Err(Error::InvalidFormat);
            },
            Some(h) => h,
        };
        let (depth_start, depth_end) = match next_field(bytes, dims_end + 1) {
            None => {
                return Err(Error::InvalidFormat);
            },
            Some(bounds) => bounds,
        };
        let depth = match parse_decimal_token(bytes, depth_start, depth_end) {
            None => {
                return Err(Error::InvalidFormat);
            },
            Some(d) => d,
        };
        let total = match width.checked_mul(height) {
            None => {
                return Err(Error::InvalidFormat);
            },
            Some(t) => t,
        };
        let body_start = depth_end + 1;
        let ghost body = bytes@.subrange(body_start as int, n as int);
        let available = (n - body_start) / 3;
        let count = if available < total {
            available
        } else {
            total
        };
        let mut p = Ppm::new(width, height);
        p.set_color_depth(depth);
        let mut j: usize = 0;
        while j < count
            invariant
                count <= total,
                count <= available == (n - body_start) as int / 3,
                body_start <= n == bytes@.len(),
                body == bytes@.subrange(body_start as int, n as int),
                j <= count,
                p@.width == width,
                p@.height == height,
                p@.color_depth == depth,
                p@.pixels.len() == total == width * height,
                forall|i: int|
                    0 <= i < j ==> #[trigger] p@.pixels[i] == (
                    body[3 * i],
                    body[3 * i + 1],
                    body[3 * i + 2],
                ),
                forall|i: int| j <= i < total ==> #[trigger] p@.pixels[i] == (0u8, 0u8, 0u8),
            decreases count - j,
        {
            proof {
                vstd::arithmetic::div_mod::lemma_fundamental_div_mod((n - body_start) as int, 3);
                vstd::arithmetic::div_mod::lemma_mod_bound((n - body_start) as int, 3);
                assert(3 * (j as int) + 2 < n - body_start);
            }
            let base = body_start + 3 * j;
            let c = Color::new(bytes[base], bytes[base + 1], bytes[base + 2]);
            proof {
                assert(body[3 * (j as int)] == bytes@[base as int]);
                assert(body[3 * (j as int) + 1] == bytes@[base + 1]);
                assert(body[3 * (j as int) + 2] == bytes@[base + 2]);
            }
            p.write_flat(j, c);
            j = j + 1;
        }
        proof {
            assert(p@.pixels =~= body_pixels(width * height, body)) by {
                assert forall|i: int| 0 <= i < total implies p@.pixels[i] == body_pixels(
                    width * height,
                    body,
                )[i] by {
                    assert(body.len() == n - body_start);
                }
            }
            assert(decode_spec(bytes@) == Ok::<GridView, Error>(p@));
        }
        Ok(p)
    }

    /// Encodes the grid into the exact inverse byte layout, as
    /// [`encode_spec`] describes: signature line, dimensions line,
    /// color-depth line, then the raw pixel body with no separators. The
    /// one precondition is the machine limit that the body length fit in
    /// `usize`; it holds of every grid the constructor or the decoder
    /// produces, since their buffers fit in memory.
    pub fn to_bytes(&self) -> (r: Vec<u8>)
        requires
            self@.width * self@.height * 3 <= usize::MAX,
        ensures
            r@ == encode_spec(self@),
    {
        let mut out: Vec<u8> = Vec::new();
        out.push(0x50);
        out.push(0x36);
        out.push(0x0A);
        push_decimal_digits(&mut out, self.width());
        out.push(0x20);
        push_decimal_digits(&mut out, self.height());
        out.push(0x0A);
        push_decimal_digits(&mut out, self.color_depth());
        out.push(0x0A);
        let ghost header = out@;
        proof {
            assert(header =~= seq![0x50u8, 0x36u8, 0x0Au8] + decimal_digits(self@.width as int)
                + seq![0x20u8] + decimal_digits(self@.height as int) + seq![0x0Au8]
                + decimal_digits(self@.color_depth as int) + seq![0x0Au8]);
            assert(self@.width * self@.height >= 0) by (nonlinear_arith);
        }
        let total = self.width() * self.height();
        let stored = self.buffer_len();
        let mut j: usize = 0;
        while j < total
            invariant
                j <= total == self@.width * self@.height,
                self@.width * self@.height * 3 <= usize::MAX,
                stored == self@.pixels.len(),
                out@ == header + body_bytes_prefix(self@, j as int),
            decreases total - j,
        {
            let c = if j < stored {
                self.read_flat(j)
            } else {
                Color::new(0, 0, 0)
            };
            proof {
                assert(c@ == pixel_or_black(self@.pixels, j as int));
            }
            out.push(c.red());
            out.push(c.green());
            out.push(c.blue());
            proof {
                let g = self@;
                let jj = j as int;
                assert((3 * jj) / 3 == jj && (3 * jj) % 3 == 0 && (3 * jj + 1) / 3 == jj && (3 * jj
                    + 1) % 3 == 1 && (3 * jj + 2) / 3 == jj && (3 * jj + 2) % 3 == 2)
                    by (nonlinear_arith);
                assert(out@ =~= header + body_bytes_prefix(g, jj + 1));
            }
            j = j + 1;
        }
        proof {
            assert(out@ =~= encode_spec(self@));
        }
        out
    }
}

} // verus!
