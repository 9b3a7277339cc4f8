use vstd::prelude::*;
use vstd::string::*;
use crate::color_table::{
    Color,
    ColorTable,
    bytes_to_colors,
    colors_to_bytes,
    first_position,
    indexable,
    law_header_round_trip,
    with_color,
};

verus! {

/// The status line of a successful response.
pub open spec fn ok_status() -> Seq<u8> {
    "HTTP/1.1 200 OK\r\n".spec_bytes()
}

/// The status line of a response to an unknown request.
pub open spec fn not_found_status() -> Seq<u8> {
    "HTTP/1/1 404 NOT FOUND\r\n".spec_bytes()
}

/// The line break that ends a header line and the header itself.
pub open spec fn crlf() -> Seq<u8> {
    "\r\n".spec_bytes()
}

/// The header line announcing a JSON body.
pub open spec fn json_content_type() -> Seq<u8> {
    "Content-Type:application/json;charset=UTF-8\r\n".spec_bytes()
}

/// The header line announcing a PNG body.
pub open spec fn png_content_type() -> Seq<u8> {
    "Content-Type:image/png\r\n".spec_bytes()
}

/// The start of the header line that gives the body's length.
pub open spec fn content_length_prefix() -> Seq<u8> {
    "Content-Length:".spec_bytes()
}

/// The ASCII decimal digits of `n`, most significant first, without leading zeros.
pub open spec fn decimal(n: nat) -> Seq<u8>
    decreases n,
{
    if n < 10 {
        seq![(48 + n) as u8]
    } else {
        decimal(n / 10).push((48 + n % 10) as u8)
    }
}

/// The number that a string of ASCII decimal digits reads as, most
/// significant digit first.
pub open spec fn digits_value(digits: Seq<u8>) -> int
    decreases digits.len(),
{
    if digits.len() == 0 {
        0
    } else {
        digits_value(digits.drop_last()) * 10 + (digits.last() - 48)
    }
}

/// `decimal(n)` is the base-10 numeral of `n`: it is made of ASCII digits,
/// starts with a nonzero digit unless `n` is zero, and reads back as `n`.
pub proof fn law_decimal_numeral(n: nat)
    ensures
        decimal(n).len() >= 1,
        forall|i: int| 0 <= i < decimal(n).len() ==> 48 <= #[trigger] decimal(n)[i] <= 57,
        decimal(n)[0] != 48 || n == 0,
        digits_value(decimal(n)) == n,
    decreases n,
{
    if n >= 10 {
        let d = decimal(n / 10);
        law_decimal_numeral(n / 10);
        assert(decimal(n) == d.push((48 + n % 10) as u8));
        assert(d.push((48 + n % 10) as u8).drop_last() =~= d);
        assert forall|i: int| 0 <= i < decimal(n).len() implies 48 <= #[trigger] decimal(n)[i]
            <= 57 by {
            if i < d.len() {
                assert(decimal(n)[i] == d[i]);
            }
        }
        assert(decimal(n)[0] == d[0]);
        assert(decimal(n).last() == (48 + n % 10) as u8);
        assert(digits_value(decimal(n)) == digits_value(d) * 10 + (n % 10));
        assert((n / 10) * 10 + n % 10 == n);
    } else {
        assert(decimal(n).drop_last() =~= Seq::<u8>::empty());
        assert(digits_value(decimal(n)) == digits_value(Seq::<u8>::empty()) * 10 + n);
    }
}

/// The ASCII decimal digits of `n`, as `format!("{}", n)` writes them.
pub fn decimal_bytes(n: usize) -> (digits: Vec<u8>)
    ensures
        digits@ == decimal(n as nat),
    decreases n,
{
    if n < 10 {
        let d = 48 + n as u8;
        vec![d]
    } else {
        let mut digits = decimal_bytes(n / 10);
        let d = 48 + (n % 10) as u8;
        digits.push(d);
        digits
    }
}

/// Appends the bytes of `tail` to `bytes`.
fn append_bytes(bytes: &mut Vec<u8>, tail: &[u8])
    ensures
        final(bytes)@ == old(bytes)@ + tail@,
{
    bytes.extend_from_slice(tail);
    assert(bytes@ =~= old(bytes)@ + tail@);
}

/// A header that starts with the given status line.
pub fn make_header(status_line: &[u8]) -> (header: Vec<u8>)
    ensures
        header@ == status_line@,
{
    let mut header: Vec<u8> = Vec::new();
    append_bytes(&mut header, status_line);
    header
}

/// The header of a successful response with no further header lines.
pub fn make_ok_header() -> (header: Vec<u8>)
    ensures
        header@ == ok_status() + crlf(),
{
    let ok_status = "HTTP/1.1 200 OK\r\n".as_bytes();
    let header = make_header(ok_status);
    end_header(header)
}

/// The header with the blank line that ends it.
pub fn end_header(header: Vec<u8>) -> (new_header: Vec<u8>)
    ensures
        new_header@ == header@ + crlf(),
{
    let rn = "\r\n".as_bytes();
    let mut new_header = header;
    append_bytes(&mut new_header, rn);
    new_header
}

/// The header of the response to an unknown request.
pub fn make_not_found_header() -> (header: Vec<u8>)
    ensures
        header@ == not_found_status() + crlf(),
{
    let not_found_status = "HTTP/1/1 404 NOT FOUND\r\n".as_bytes();
    let header = make_header(not_found_status);
    end_header(header)
}

/// The header of a successful response with a JSON body.
pub fn make_json_header() -> (header: Vec<u8>)
    ensures
        header@ == ok_status() + crlf() + json_content_type() + crlf(),
{
    let mut header = make_ok_header();
    let header_json = "Content-Type:application/json;charset=UTF-8\r\n".as_bytes();
    append_bytes(&mut header, header_json);
    end_header(header)
}

/// The header of a successful response with a PNG body of `size` bytes.
pub fn make_image_header(size: usize) -> (header: Vec<u8>)
    ensures
        header@ == ok_status() + crlf() + content_length_prefix() + decimal(size as nat) + crlf()
            + png_content_type() + crlf(),
{
    let mut header = make_ok_header();
    let content_type = "Content-Type:image/png\r\n".as_bytes();
    append_bytes(&mut header, "Content-Length:".as_bytes());
    let digits = decimal_bytes(size);
    append_bytes(&mut header, digits.as_slice());
    append_bytes(&mut header, "\r\n".as_bytes());
    append_bytes(&mut header, content_type);
    end_header(header)
}

/// An image held as plain values: `pixels` lists the pixels column by
/// column, so pixel (x, y) is at index `x * height + y`.
pub struct Bitmap {
    pub width: u32,
    pub height: u32,
    pub pixels: Vec<Color>,
}

impl Bitmap {
    /// The pixel list holds exactly one pixel per position.
    pub open spec fn wf(&self) -> bool {
        self.pixels@.len() == self.width * self.height
    }
}

/// The distinct colors of `pixels`, in the order of their first occurrence.
pub open spec fn palette(pixels: Seq<Color>) -> Seq<Color>
    decreases pixels.len(),
{
    if pixels.len() == 0 {
        Seq::empty()
    } else {
        with_color(palette(pixels.drop_last()), pixels.last())
    }
}

/// The index of `color` in a table where it occurs.
pub open spec fn position(colors: Seq<Color>, color: Color) -> int {
    choose|i: int| first_position(colors, color, i)
}

/// The palette index of each pixel.
pub open spec fn codes(pixels: Seq<Color>) -> Seq<u8> {
    Seq::new(pixels.len(), |k: int| position(palette(pixels), pixels[k]) as u8)
}

/// Two 4-bit codes per byte, the first in the high half; an odd last code is
/// dropped.
pub open spec fn pack_nibbles(codes: Seq<u8>) -> Seq<u8> {
    Seq::new(codes.len() / 2, |j: int| codes[2 * j + 1] | (codes[2 * j] << 4u8))
}

/// The encoded image: the palette as a color table header, then the packed
/// palette codes of the pixels in storage order.
pub open spec fn encode_image(pixels: Seq<Color>) -> Seq<u8> {
    colors_to_bytes(palette(pixels)) + pack_nibbles(codes(pixels))
}

/// `p` is an initial part of `q`.
pub open spec fn is_prefix(p: Seq<Color>, q: Seq<Color>) -> bool {
    p.len() <= q.len() && forall|i: int| 0 <= i < p.len() ==> p[i] == q[i]
}

proof fn lemma_with_color(t: Seq<Color>, c: Color)
    ensures
        is_prefix(t, with_color(t, c)),
        with_color(t, c).contains(c),
{
    if !t.contains(c) {
        assert(t.push(c)[t.len() as int] == c);
    }
}

/// The palette holds each color once and holds every pixel's color.
proof fn lemma_palette(pixels: Seq<Color>)
    ensures
        palette(pixels).no_duplicates(),
        forall|k: int| 0 <= k < pixels.len() ==> palette(pixels).contains(#[trigger] pixels[k]),
    decreases pixels.len(),
{
    if pixels.len() > 0 {
        let init = pixels.drop_last();
        lemma_palette(init);
        lemma_with_color(palette(init), pixels.last());
        assert forall|k: int| 0 <= k < pixels.len() implies palette(pixels).contains(
            #[trigger] pixels[k],
        ) by {
            if k < init.len() {
                assert(init[k] == pixels[k]);
            }
        }
    }
}

/// The palette of an initial part of the pixels is an initial part of the palette.
proof fn lemma_palette_prefix(pixels: Seq<Color>, k: int)
    requires
        0 <= k <= pixels.len(),
    ensures
        is_prefix(palette(pixels.take(k)), palette(pixels)),
    decreases pixels.len(),
{
    if k == pixels.len() {
        assert(pixels.take(k) =~= pixels);
    } else {
        let init = pixels.drop_last();
        assert(init.take(k) =~= pixels.take(k));
        lemma_palette_prefix(init, k);
        lemma_with_color(palette(init), pixels.last());
    }
}

proof fn lemma_first_position_unique(colors: Seq<Color>, c: Color, i: int, j: int)
    requires
        first_position(colors, c, i),
        first_position(colors, c, j),
    ensures
        i == j,
{
    if i < j {
        assert(colors[i] == c);
    } else if j < i {
        assert(colors[j] == c);
    }
}

proof fn lemma_first_position_prefix(p: Seq<Color>, q: Seq<Color>, c: Color, i: int)
    requires
        is_prefix(p, q),
        first_position(p, c, i),
    ensures
        first_position(q, c, i),
{
    assert forall|j: int| 0 <= j < i implies q[j] != c by {
        assert(p[j] == q[j]);
    }
}

/// A color found first at `i` has position `i`.
proof fn lemma_position(colors: Seq<Color>, c: Color, i: int)
    requires
        first_position(colors, c, i),
    ensures
        position(colors, c) == i,
{
    let j = position(colors, c);
    lemma_first_position_unique(colors, c, i, j);
}

/// A color that occurs in a table has a first position there.
proof fn lemma_first_position_exists(colors: Seq<Color>, c: Color)
    requires
        colors.contains(c),
    ensures
        first_position(colors, c, position(colors, c)),
    decreases colors.len(),
{
    let i = choose|i: int| 0 <= i < colors.len() && colors[i] == c;
    if !first_position(colors, c, i) {
        let j = choose|j: int| 0 <= j < i && colors[j] == c;
        let sub = colors.take(i);
        assert(sub[j] == c);
        lemma_first_position_exists(sub, c);
        let f = position(sub, c);
        assert forall|m: int| 0 <= m < f implies colors[m] != c by {
            assert(sub[m] == colors[m]);
        }
        assert(sub[f] == colors[f]);
        assert(first_position(colors, c, f));
        lemma_position(colors, c, f);
    } else {
        lemma_position(colors, c, i);
    }
}

/// Encodes an image for transfer: the table of its distinct colors, then two
/// 4-bit palette codes per byte, read column by column.
pub fn convert_to_bytes(img: &Bitmap) -> (overall: Vec<u8>)
    requires
        img.wf(),
        palette(img.pixels@).len() <= 256,
        img.pixels@.len() <= i32::MAX,
    ensures
        overall@ == encode_image(img.pixels@),
{
    let mut ct = ColorTable::new();
    let mut byte: u8 = 0;
    let mut count: i32 = 0;
    let mut bytes: Vec<u8> = Vec::new();
    let ghost s = img.pixels@;
    let n = img.pixels.len();
    let mut k: usize = 0;
    proof {
        lemma_palette(s);
        assert(s.take(0) =~= Seq::<Color>::empty());
    }
    while k < n
        invariant
            s == img.pixels@,
            n == s.len(),
            k <= n,
            n <= i32::MAX,
            count as int == k as int,
            palette(s).len() <= 256,
            palette(s).no_duplicates(),
            forall|j: int| 0 <= j < s.len() ==> palette(s).contains(#[trigger] s[j]),
            ct@ == palette(s.take(k as int)),
            bytes@ =~= pack_nibbles(codes(s).take(k as int)),
            k % 2 == 1 ==> byte == codes(s)[k - 1],
        decreases n - k,
    {
        let c = img.pixels[k];
        proof {
            lemma_palette_prefix(s, k + 1);
            let next = s.take(k + 1);
            assert(next.drop_last() =~= s.take(k as int));
            assert(next.last() == c);
            if ct@.contains(c) {
                let j = choose|j: int| 0 <= j < ct@.len() && ct@[j] == c;
                assert(palette(s)[j] == c);
            }
        }
        let i = ct.push_if_unique(&c);
        proof {
            lemma_palette_prefix(s, k + 1);
            lemma_first_position_prefix(ct@, palette(s), c, i as int);
            lemma_position(palette(s), c, i as int);
            assert(codes(s)[k as int] == i);
        }
        if count % 2 == 1 {
            let new_byte = i | byte << 4u8;
            bytes.push(new_byte);
        } else {
            byte = i;
        }
        count = count + 1;
        k = k + 1;
    }
    assert(s.take(n as int) =~= s);
    assert(codes(s).take(n as int) =~= codes(s));
    let mut overall = ct.output_file_header();
    overall.append(&mut bytes);
    overall
}

/// The position of linear index `i` in an image of `mod_value` rows: the
/// index is taken as a `u32`, the column is the quotient and the row the
/// remainder.
pub fn index_to_pos(i: usize, mod_value: u32) -> (pos: (usize, usize))
    requires
        mod_value > 0,
    ensures
        pos.0 == (i as u32) / mod_value,
        pos.1 == (i as u32) % mod_value,
{
    let index = i as u32;
    let x = (index / mod_value) as usize;
    let y = (index % mod_value) as usize;
    (x, y)
}

/// One pixel to set: its column, its row and its color.
#[derive(Debug, PartialEq, Eq, Structural, Copy, Clone)]
pub struct Placement {
    pub x: u32,
    pub y: u32,
    pub color: Color,
}

/// The length of the color table header that an encoded image starts with:
/// sixteen colors.
pub open spec fn table_header_length() -> int {
    48
}

/// Half `k` (0 = high, 1 = low) of a byte.
pub open spec fn nibble(b: u8, k: int) -> u8 {
    if k == 0 {
        b >> 4u8
    } else {
        b & 15u8
    }
}

/// The pixels that an encoded image sets, in order: the table is read from the
/// first 48 bytes, and each later byte gives two pixels, high half first; the
/// `k`-th pixel goes to column `k / height` and row `k % height`, with `k`
/// taken as a `u32`.
pub open spec fn decode_placements(bytes: Seq<u8>, height: u32) -> Seq<Placement> {
    Seq::new(
        (2 * (bytes.len() - table_header_length())) as nat,
        |k: int|
            Placement {
                x: ((k as u32) / height) as u32,
                y: ((k as u32) % height) as u32,
                color: decoded_color(bytes, k),
            },
    )
}

/// The color of the `k`-th pixel of an encoded image.
pub open spec fn decoded_color(bytes: Seq<u8>, k: int) -> Color {
    bytes_to_colors(bytes.take(table_header_length()))[nibble(
        bytes[table_header_length() + k / 2],
        k % 2,
    ) as int]
}

/// The pixels to set when an encoded image is saved, in the order in which
/// they are set.
pub fn image_placements(bytes: &[u8], height: u32) -> (placements: Vec<Placement>)
    requires
        bytes@.len() >= table_header_length(),
        bytes@.len() <= isize::MAX,
        height > 0,
    ensures
        placements@ == decode_placements(bytes@, height),
{
    let header_length: usize = 16 * 3;
    let table_bytes = &bytes[0..header_length];
    let ct = ColorTable::from_file_header(vstd::slice::slice_to_vec(table_bytes));
    let ghost table = bytes_to_colors(bytes@.take(table_header_length()));
    assert(table_bytes@ =~= bytes@.take(table_header_length()));
    assert(ct@.len() == 16);
    let mut placements: Vec<Placement> = Vec::new();
    let mut count: usize = 0;
    let total = bytes.len() - header_length;
    while count < total
        invariant
            bytes@.len() <= isize::MAX,
            header_length == 48,
            height > 0,
            table == bytes_to_colors(bytes@.take(table_header_length())),
            ct@ == table,
            ct@.len() == 16,
            count <= total,
            bytes@.len() == header_length + total,
            placements@ =~= decode_placements(bytes@, height).take(2 * count),
        decreases total - count,
    {
        let b = bytes[header_length + count];
        assert(b >> 4u8 < 16u8) by (bit_vector);
        assert(b & 15u8 < 16u8) by (bit_vector);
        let zero = ct.get(b >> 4u8);
        let one = ct.get(b & 15u8);
        let (x, y) = index_to_pos(count * 2, height);
        let first = Placement { x: x as u32, y: y as u32, color: zero };
        placements.push(first);
        let (x, y) = index_to_pos(count * 2 + 1, height);
        let second = Placement { x: x as u32, y: y as u32, color: one };
        placements.push(second);
        proof {
            let k = 2 * count as int;
            let spec = decode_placements(bytes@, height);
            assert(k / 2 == count && k % 2 == 0);
            assert((k + 1) / 2 == count && (k + 1) % 2 == 1);
            assert(bytes@[table_header_length() + k / 2] == b);
            assert(spec[k] == first);
            assert(spec[k + 1] == second);
            assert(placements@ =~= spec.take(2 * (count + 1)));
        }
        count = count + 1;
    }
    placements
}

proof fn lemma_nibbles(hi: u8, lo: u8)
    requires
        hi < 16,
        lo < 16,
    ensures
        (lo | (hi << 4u8)) >> 4u8 == hi,
        (lo | (hi << 4u8)) & 15u8 == lo,
{
    assert((lo | (hi << 4u8)) >> 4u8 == hi) by (bit_vector)
        requires
            hi < 16,
            lo < 16,
    ;
    assert((lo | (hi << 4u8)) & 15u8 == lo) by (bit_vector)
        requires
            hi < 16,
            lo < 16,
    ;
}

/// Decoding an encoded image sets every pixel, in storage order, to its own
/// color at its own column and row, when the image has exactly sixteen colors
/// (the table size the decoder reads) and an even number of pixels (two per byte).
pub proof fn law_image_round_trip(pixels: Seq<Color>, height: u32)
    requires
        palette(pixels).len() == 16,
        pixels.len() % 2 == 0,
        height > 0,
    ensures
        decode_placements(encode_image(pixels), height) == Seq::new(
            pixels.len(),
            |k: int|
                Placement {
                    x: ((k as u32) / height) as u32,
                    y: ((k as u32) % height) as u32,
                    color: pixels[k],
                },
        ),
{
    let p = palette(pixels);
    let cs = codes(pixels);
    let bytes = encode_image(pixels);
    let header = colors_to_bytes(p);
    let body = pack_nibbles(cs);
    lemma_palette(pixels);
    law_header_round_trip(p);
    assert(bytes.take(table_header_length()) =~= header);
    assert forall|m: int| 0 <= m < pixels.len() implies #[trigger] cs[m] < 16 && p[cs[m] as int]
        == pixels[m] by {
        lemma_first_position_exists(p, pixels[m]);
    }
    let expected = Seq::new(
        pixels.len(),
        |k: int|
            Placement {
                x: ((k as u32) / height) as u32,
                y: ((k as u32) % height) as u32,
                color: pixels[k],
            },
    );
    let got = decode_placements(bytes, height);
    assert(got.len() == pixels.len());
    assert forall|k: int| 0 <= k < pixels.len() implies #[trigger] got[k] == expected[k] by {
        let j = k / 2;
        assert(0 <= 2 * j + 1 < pixels.len());
        assert(bytes[table_header_length() + j] == body[j]);
        let hi = cs[2 * j];
        let lo = cs[2 * j + 1];
        lemma_nibbles(hi, lo);
        assert(body[j] == lo | (hi << 4u8));
        if k % 2 == 0 {
            assert(k == 2 * j);
        } else {
            assert(k == 2 * j + 1);
        }
        assert(nibble(bytes[table_header_length() + k / 2], k % 2) == cs[k]);
    }
    assert(got =~= expected);
}

/// A linear index that fits a `u32` lands at the column and row whose
/// column-major storage index is that index again, so decoding places each
/// pixel where a `Bitmap` of that height stores it.
pub proof fn law_position_inverse(k: int, height: u32)
    requires
        0 <= k <= u32::MAX,
        height > 0,
    ensures
        ((k as u32) / height) * height + (k as u32) % height == k,
        (k as u32) % height < height,
{
    let h = height as int;
    assert((k as u32) as int == k);
    assert((k / h) * h + k % h == k && 0 <= k % h < h) by (nonlinear_arith)
        requires
            h > 0,
    ;
}

/// Decoding an encoded image gives each encoded pixel its own color at its
/// own column and row, for any pixel count: the decoder yields one pixel per
/// encoded pixel, that is all of them but an odd last one. The image must have
/// exactly sixteen colors, the table size the decoder reads.
pub proof fn law_image_round_trip_any_length(pixels: Seq<Color>, height: u32)
    requires
        palette(pixels).len() == 16,
        height > 0,
    ensures
        decode_placements(encode_image(pixels), height).len() == 2 * (pixels.len() / 2),
        forall|k: int|
            0 <= k < 2 * (pixels.len() / 2) ==> #[trigger] decode_placements(
                encode_image(pixels),
                height,
            )[k] == (Placement {
                x: ((k as u32) / height) as u32,
                y: ((k as u32) % height) as u32,
                color: pixels[k],
            }),
{
    let p = palette(pixels);
    let cs = codes(pixels);
    let bytes = encode_image(pixels);
    let body = pack_nibbles(cs);
    lemma_palette(pixels);
    law_header_round_trip(p);
    assert(bytes.take(table_header_length()) =~= colors_to_bytes(p));
    assert forall|m: int| 0 <= m < pixels.len() implies #[trigger] cs[m] < 16 && p[cs[m] as int]
        == pixels[m] by {
        lemma_first_position_exists(p, pixels[m]);
    }
    let got = decode_placements(bytes, height);
    assert forall|k: int| 0 <= k < 2 * (pixels.len() / 2) implies #[trigger] got[k] == (Placement {
        x: ((k as u32) / height) as u32,
        y: ((k as u32) % height) as u32,
        color: pixels[k],
    }) by {
        let j = k / 2;
        assert(0 <= 2 * j + 1 < pixels.len());
        assert(bytes[table_header_length() + j] == body[j]);
        let hi = cs[2 * j];
        let lo = cs[2 * j + 1];
        lemma_nibbles(hi, lo);
        assert(body[j] == lo | (hi << 4u8));
        if k % 2 == 0 {
            assert(k == 2 * j);
        } else {
            assert(k == 2 * j + 1);
        }
        assert(nibble(bytes[table_header_length() + k / 2], k % 2) == cs[k]);
    }
}

/// Records a log line; nothing is kept.
pub fn log(new_line: String) {
}

} // verus!
