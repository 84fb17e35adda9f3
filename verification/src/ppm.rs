//! Serialization of a framebuffer into the plain (ASCII) portable pixel-map
//! format: a three-line header, then one line per pixel holding the
//! intensity repeated for the three channels.

use vstd::prelude::*;

use crate::framebuffer::Framebuffer;

verus! {

/// ASCII space.
pub const SPACE: u8 = 32;

/// ASCII line feed; every header line and every pixel line ends with one.
pub const NEWLINE: u8 = 10;

/// Maximum channel value declared in the header.
pub const MAX_CHANNEL: u8 = 255;

/// The ASCII decimal digits of `n`, most significant first, no sign and no
/// leading zeros (a single `'0'` for zero).
pub open spec fn decimal_digits(n: nat) -> Seq<u8>
    decreases n,
{
    if n < 10 {
        seq![(48 + n) as u8]
    } else {
        decimal_digits(n / 10).push((48 + n % 10) as u8)
    }
}

/// Render `n` in ASCII decimal.
pub fn format_decimal(n: usize) -> (r: Vec<u8>)
    ensures
        r@ == decimal_digits(n as nat),
    decreases n,
{
    if n < 10 {
        let mut v: Vec<u8> = Vec::new();
        v.push(48 + n as u8);
        proof {
            assert(v@ =~= decimal_digits(n as nat));
        }
        v
    } else {
        let mut v = format_decimal(n / 10);
        v.push(48 + (n % 10) as u8);
        proof {
            assert(v@ =~= decimal_digits(n as nat));
        }
        v
    }
}

/// One pixel's output line: the intensity three times (the single gray
/// channel replicated to r, g and b), space-separated, newline-terminated.
pub open spec fn pixel_line(c: u8) -> Seq<u8> {
    decimal_digits(c as nat) + seq![SPACE] + decimal_digits(c as nat) + seq![SPACE]
        + decimal_digits(c as nat) + seq![NEWLINE]
}

/// The serialized body: one line per stored pixel, in buffer order.
pub open spec fn body_bytes(pixels: Seq<u8>) -> Seq<u8>
    decreases pixels.len(),
{
    if pixels.len() == 0 {
        Seq::empty()
    } else {
        pixel_line(pixels[0]) + body_bytes(pixels.drop_first())
    }
}

/// The three-line header: the magic token `P3`, the two dimensions, and the
/// maximum channel value.
pub open spec fn header_bytes(width: nat, height: nat) -> Seq<u8> {
    seq![80u8, 51u8, NEWLINE]  // "P3\n"
     + decimal_digits(width) + seq![SPACE] + decimal_digits(height) + seq![NEWLINE]
        + decimal_digits(MAX_CHANNEL as nat) + seq![NEWLINE]
}

/// The complete file contents for a framebuffer: the header declares the
/// framebuffer's own dimensions, and the body serializes its pixel bytes.
pub open spec fn image_bytes(fb: Framebuffer) -> Seq<u8> {
    header_bytes(fb.spec_width() as nat, fb.spec_height() as nat) + body_bytes(fb.pixel_data())
}

/// How many newline bytes `s` holds: the number of text lines it encodes.
pub open spec fn newline_count(s: Seq<u8>) -> nat
    decreases s.len(),
{
    if s.len() == 0 {
        0
    } else {
        (if s[0] == NEWLINE {
            1nat
        } else {
            0nat
        }) + newline_count(s.drop_first())
    }
}

/// A one-byte sequence holds one newline or none, by the byte's value.
proof fn lemma_newline_count_single(b: u8)
    ensures
        newline_count(seq![b]) == (if b == NEWLINE {
            1nat
        } else {
            0nat
        }),
{
    reveal_with_fuel(newline_count, 2);
    assert(seq![b].drop_first() =~= Seq::<u8>::empty());
}

proof fn lemma_newline_count_concat(a: Seq<u8>, b: Seq<u8>)
    ensures
        newline_count(a + b) == newline_count(a) + newline_count(b),
    decreases a.len(),
{
    if a.len() == 0 {
        assert(a + b =~= b);
    } else {
        assert((a + b).drop_first() =~= a.drop_first() + b);
        lemma_newline_count_concat(a.drop_first(), b);
    }
}

/// Decimal digits are drawn from `'0'..='9'`, so they never contain a
/// newline.
proof fn lemma_decimal_digits_no_newline(n: nat)
    ensures
        newline_count(decimal_digits(n)) == 0,
    decreases n,
{
    if n < 10 {
        lemma_newline_count_single((48 + n) as u8);
    } else {
        lemma_decimal_digits_no_newline(n / 10);
        assert(decimal_digits(n) =~= decimal_digits(n / 10) + seq![(48 + n % 10) as u8]);
        lemma_newline_count_concat(decimal_digits(n / 10), seq![(48 + n % 10) as u8]);
        lemma_newline_count_single((48 + n % 10) as u8);
    }
}

/// Each pixel line ends in exactly one newline.
proof fn lemma_pixel_line_newline_count(c: u8)
    ensures
        newline_count(pixel_line(c)) == 1,
{
    let d = decimal_digits(c as nat);
    lemma_decimal_digits_no_newline(c as nat);
    lemma_newline_count_concat(d, seq![SPACE]);
    lemma_newline_count_concat(d + seq![SPACE], d);
    lemma_newline_count_concat(d + seq![SPACE] + d, seq![SPACE]);
    lemma_newline_count_concat(d + seq![SPACE] + d + seq![SPACE], d);
    lemma_newline_count_concat(d + seq![SPACE] + d + seq![SPACE] + d, seq![NEWLINE]);
    lemma_newline_count_single(SPACE);
    lemma_newline_count_single(NEWLINE);
}

/// Serializing a concatenation concatenates the serializations.
proof fn lemma_body_bytes_concat(a: Seq<u8>, b: Seq<u8>)
    ensures
        body_bytes(a + b) == body_bytes(a) + body_bytes(b),
    decreases a.len(),
{
    if a.len() == 0 {
        assert(a + b =~= b);
        assert(body_bytes(a) + body_bytes(b) =~= body_bytes(b));
    } else {
        assert((a + b).drop_first() =~= a.drop_first() + b);
        lemma_body_bytes_concat(a.drop_first(), b);
        assert((a + b)[0] == a[0]);
        assert(body_bytes(a + b) =~= body_bytes(a) + body_bytes(b));
    }
}

/// Appending one pixel appends exactly its line.
proof fn lemma_body_bytes_snoc(s: Seq<u8>, c: u8)
    ensures
        body_bytes(s.push(c)) == body_bytes(s) + pixel_line(c),
{
    assert(s.push(c) =~= s + seq![c]);
    lemma_body_bytes_concat(s, seq![c]);
    assert(body_bytes(seq![c]) =~= pixel_line(c)) by {
        reveal_with_fuel(body_bytes, 2);
        assert(seq![c].drop_first() =~= Seq::<u8>::empty());
        assert(pixel_line(c) + Seq::<u8>::empty() =~= pixel_line(c));
    }
}

/// Law: the body may be produced in consecutive chunks; the chunks
/// concatenate to exactly the serialization of the whole buffer, so
/// streamed output equals whole-buffer output.
pub proof fn lemma_body_bytes_split(s: Seq<u8>, k: int)
    requires
        0 <= k <= s.len(),
    ensures
        body_bytes(s) == body_bytes(s.subrange(0, k)) + body_bytes(
            s.subrange(k, s.len() as int),
        ),
{
    assert(s =~= s.subrange(0, k) + s.subrange(k, s.len() as int));
    lemma_body_bytes_concat(s.subrange(0, k), s.subrange(k, s.len() as int));
}

/// The body holds exactly one line per pixel.
proof fn lemma_body_bytes_line_count(pixels: Seq<u8>)
    ensures
        newline_count(body_bytes(pixels)) == pixels.len(),
    decreases pixels.len(),
{
    if pixels.len() == 0 {
    } else {
        lemma_pixel_line_newline_count(pixels[0]);
        lemma_newline_count_concat(pixel_line(pixels[0]), body_bytes(pixels.drop_first()));
        lemma_body_bytes_line_count(pixels.drop_first());
    }
}

/// Law: the serialized image holds exactly `width * height` pixel lines
/// after the three header lines, and the header declares the framebuffer's
/// own dimensions.
pub proof fn lemma_image_line_count(fb: Framebuffer)
    requires
        fb.wf(),
        fb.is_initialized(),
    ensures
        newline_count(body_bytes(fb.pixel_data())) == fb.spec_width() * fb.spec_height(),
        newline_count(header_bytes(fb.spec_width() as nat, fb.spec_height() as nat)) == 3,
        newline_count(image_bytes(fb)) == fb.spec_width() * fb.spec_height() + 3,
{
    let w = fb.spec_width() as nat;
    let h = fb.spec_height() as nat;
    lemma_body_bytes_line_count(fb.pixel_data());
    lemma_header_line_count(w, h);
    lemma_newline_count_concat(header_bytes(w, h), body_bytes(fb.pixel_data()));
}

/// The header holds exactly three lines.
proof fn lemma_header_line_count(width: nat, height: nat)
    ensures
        newline_count(header_bytes(width, height)) == 3,
{
    lemma_decimal_digits_no_newline(width);
    lemma_decimal_digits_no_newline(height);
    lemma_decimal_digits_no_newline(MAX_CHANNEL as nat);
    let magic = seq![80u8, 51u8, NEWLINE];
    assert(newline_count(magic) == 1) by {
        reveal_with_fuel(newline_count, 4);
        assert(magic.drop_first() =~= seq![51u8, NEWLINE]);
        assert(seq![51u8, NEWLINE].drop_first() =~= seq![NEWLINE]);
        assert(seq![NEWLINE].drop_first() =~= Seq::<u8>::empty());
    }
    lemma_newline_count_single(SPACE);
    lemma_newline_count_single(NEWLINE);
    lemma_newline_count_concat(magic, decimal_digits(width));
    lemma_newline_count_concat(magic + decimal_digits(width), seq![SPACE]);
    lemma_newline_count_concat(magic + decimal_digits(width) + seq![SPACE], decimal_digits(height));
    lemma_newline_count_concat(
        magic + decimal_digits(width) + seq![SPACE] + decimal_digits(height),
        seq![NEWLINE],
    );
    lemma_newline_count_concat(
        magic + decimal_digits(width) + seq![SPACE] + decimal_digits(height) + seq![NEWLINE],
        decimal_digits(MAX_CHANNEL as nat),
    );
    lemma_newline_count_concat(
        magic + decimal_digits(width) + seq![SPACE] + decimal_digits(height) + seq![NEWLINE]
            + decimal_digits(MAX_CHANNEL as nat),
        seq![NEWLINE],
    );
}

/// Render the three-line header for a `width` by `height` image.
pub fn render_header(width: usize, height: usize) -> (r: Vec<u8>)
    ensures
        r@ == header_bytes(width as nat, height as nat),
{
    let mut out: Vec<u8> = Vec::new();
    out.push(80);  // 'P'
    out.push(51);  // '3'
    out.push(NEWLINE);
    let mut w_digits = format_decimal(width);
    out.append(&mut w_digits);
    out.push(SPACE);
    let mut h_digits = format_decimal(height);
    out.append(&mut h_digits);
    out.push(NEWLINE);
    let mut max_digits = format_decimal(255);
    out.append(&mut max_digits);
    out.push(NEWLINE);
    proof {
        assert(out@ =~= header_bytes(width as nat, height as nat));
    }
    out
}

/// Append one pixel's output line to `out`.
fn push_pixel_line(out: &mut Vec<u8>, c: u8)
    ensures
        final(out)@ == old(out)@ + pixel_line(c),
{
    let mut d = format_decimal(c as usize);
    out.append(&mut d);
    out.push(SPACE);
    let mut d2 = format_decimal(c as usize);
    out.append(&mut d2);
    out.push(SPACE);
    let mut d3 = format_decimal(c as usize);
    out.append(&mut d3);
    out.push(NEWLINE);
    proof {
        assert(out@ =~= old(out)@ + pixel_line(c));
    }
}

/// Render the pixel lines for `count` consecutive pixels starting at raw
/// index `start`: one bounded chunk of the streamed body.
pub fn render_chunk(fb: &Framebuffer, start: usize, count: usize) -> (r: Vec<u8>)
    requires
        start + count <= fb.pixel_data().len(),
    ensures
        r@ == body_bytes(fb.pixel_data().subrange(start as int, start + count)),
{
    proof {
        fb.lemma_data_len_fits();
    }
    let mut out: Vec<u8> = Vec::new();
    let mut i: usize = 0;
    while i < count
        invariant
            i <= count,
            start + count <= fb.pixel_data().len(),
            fb.pixel_data().len() <= usize::MAX,
            out@ == body_bytes(fb.pixel_data().subrange(start as int, start + i)),
        decreases count - i,
    {
        let c = fb.read_index(start + i);
        push_pixel_line(&mut out, c);
        proof {
            let data = fb.pixel_data();
            assert(data.subrange(start as int, start + i + 1) =~= data.subrange(
                start as int,
                start + i,
            ).push(data[start + i]));
            lemma_body_bytes_snoc(data.subrange(start as int, start + i), data[start + i]);
        }
        i = i + 1;
    }
    proof {
        assert(out@ =~= body_bytes(fb.pixel_data().subrange(start as int, start + count)));
    }
    out
}

} // verus!
