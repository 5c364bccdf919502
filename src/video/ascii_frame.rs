//! ASCII frames: the glyph mapping, the run-length codec, and the conversion
//! of camera buffers.

use crate::text::{chars_of, push_char};
use crate::video::jpeg::{decode_jpeg_luma, jpeg_luma};
use vstd::prelude::*;

verus! {

/// Darkest to lightest.
pub const ASCII_CHARS: [char; 11] = ['@', '#', '0', 'O', '*', ';', ':', '.', ',', '\'', ' '];

pub const ASCII_FRAME_WIDTH: usize = 192;

pub const ASCII_FRAME_HEIGHT: usize = 54;

/// The most characters of one glyph that a single pair of the run-length
/// codec stands for.
pub const MAX_RUN: u8 = 255;

// ---------------------------------------------------------------------------
// Run-length codec

/// The byte that stands for a glyph: the low eight bits of its code point.
pub open spec fn glyph_byte(c: char) -> u8 {
    (c as u32) as u8
}

/// How many of the first characters of `s`, at most `limit`, equal `c`.
pub open spec fn run_length(s: Seq<char>, c: char, limit: nat) -> nat
    decreases limit,
{
    if limit == 0 || s.len() == 0 || s[0] != c {
        0
    } else {
        1 + run_length(s.drop_first(), c, (limit - 1) as nat)
    }
}

pub proof fn lemma_run_length_bounds(s: Seq<char>, c: char, limit: nat)
    ensures
        run_length(s, c, limit) <= limit,
        run_length(s, c, limit) <= s.len(),
        s.len() > 0 && s[0] == c && limit > 0 ==> run_length(s, c, limit) >= 1,
    decreases limit,
{
    if limit > 0 && s.len() > 0 && s[0] == c {
        lemma_run_length_bounds(s.drop_first(), c, (limit - 1) as nat);
    }
}

/// A prefix of `m` copies of `c` that cannot be extended (the input ends,
/// the next character differs, or the limit is reached) is the run.
proof fn lemma_run_length_exact(s: Seq<char>, c: char, limit: nat, m: nat)
    requires
        m <= limit,
        m <= s.len(),
        forall|k: int| 0 <= k < m ==> s[k] == c,
        m == s.len() || s[m as int] != c || m == limit,
    ensures
        run_length(s, c, limit) == m,
    decreases m,
{
    if m > 0 {
        assert(s.drop_first()[(m - 1) as int] == s[m as int] || m == s.len() || m == limit);
        lemma_run_length_exact(s.drop_first(), c, (limit - 1) as nat, (m - 1) as nat);
    } else {
        if limit > 0 && s.len() > 0 {
            assert(s[0] != c);
        }
    }
}

proof fn lemma_run_is_repeat(s: Seq<char>, c: char, limit: nat)
    ensures
        forall|k: int| 0 <= k < run_length(s, c, limit) ==> s[k] == c,
    decreases limit,
{
    if limit > 0 && s.len() > 0 && s[0] == c {
        lemma_run_is_repeat(s.drop_first(), c, (limit - 1) as nat);
        lemma_run_length_bounds(s, c, limit);
        assert forall|k: int| 0 <= k < run_length(s, c, limit) implies s[k] == c by {
            if k > 0 {
                assert(s[k] == s.drop_first()[k - 1]);
            }
        }
    }
}

/// The run-length encoding: for each maximal run of one glyph, cut into
/// pieces of at most 255, the glyph's byte and the piece's length.
pub open spec fn rle_encode(s: Seq<char>) -> Seq<u8>
    decreases s.len(),
{
    if s.len() == 0 {
        seq![]
    } else {
        let n = run_length(s, s[0], MAX_RUN as nat);
        proof {
            lemma_run_length_bounds(s, s[0], MAX_RUN as nat);
        }
        seq![glyph_byte(s[0]), n as u8] + rle_encode(s.skip(n as int))
    }
}

/// `n` copies of `c`.
pub open spec fn repeat_char(c: char, n: nat) -> Seq<char> {
    Seq::new(n, |k: int| c)
}

/// The run-length decoding: each pair (byte, count) gives `count` copies of
/// the character with that byte as its code point; a lone last byte gives
/// nothing.
pub open spec fn rle_decode(b: Seq<u8>) -> Seq<char>
    decreases b.len(),
{
    if b.len() < 2 {
        seq![]
    } else {
        repeat_char(b[0] as char, b[1] as nat) + rle_decode(b.skip(2))
    }
}

/// Every character of `s` has a code point below 256, so that its byte
/// names it.
pub open spec fn is_byte_text(s: Seq<char>) -> bool {
    forall|k: int| 0 <= k < s.len() ==> (s[k] as u32) < 256
}

pub fn compress_ascii_image(ascii_image: &str) -> (r: Vec<u8>)
    ensures
        r@ == rle_encode(ascii_image@),
{
    let chars = chars_of(ascii_image);
    let n = chars.len();
    let mut compressed: Vec<u8> = Vec::new();
    let mut i: usize = 0;
    assert(chars@.skip(0) =~= chars@);
    assert(compressed@ + rle_encode(chars@) =~= rle_encode(chars@));
    while i < n
        invariant
            n == chars@.len(),
            chars@ == ascii_image@,
            i <= n,
            rle_encode(chars@) == compressed@ + rle_encode(chars@.skip(i as int)),
        decreases n - i,
    {
        let current_char = chars[i];
        let mut j: usize = i + 1;
        let mut count: u8 = 1;
        while j < n && chars[j] == current_char && count < MAX_RUN
            invariant
                n == chars@.len(),
                i < j <= n,
                count as int == j - i,
                1 <= count <= MAX_RUN,
                current_char == chars@[i as int],
                forall|k: int| i <= k < j ==> chars@[k] == current_char,
            decreases n - j,
        {
            j = j + 1;
            count = count + 1;
        }
        let ghost rest = chars@.skip(i as int);
        proof {
            assert forall|k: int| 0 <= k < count implies rest[k] == current_char by {
                assert(rest[k] == chars@[i + k]);
            }
            if j < n {
                assert(rest[count as int] == chars@[j as int]);
            }
            lemma_run_length_exact(rest, current_char, MAX_RUN as nat, count as nat);
            assert(rest.skip(count as int) =~= chars@.skip(j as int));
        }
        compressed.push(glyph_of_char(current_char));
        compressed.push(count);
        proof {
            assert(compressed@ =~= compressed@.subrange(0, compressed@.len() - 2) + seq![
                glyph_byte(current_char),
                count,
            ]);
        }
        i = j;
    }
    assert(chars@.skip(n as int) =~= Seq::<char>::empty());
    assert(compressed@ =~= compressed@ + Seq::<u8>::empty());
    compressed
}

/// The byte that stands for a glyph.
pub fn glyph_of_char(c: char) -> (r: u8)
    ensures
        r == glyph_byte(c),
{
    (c as u32) as u8
}

pub fn decompress_ascii_image(payload: Vec<u8>) -> (r: String)
    requires
        payload@.len() * 1024 <= isize::MAX,
    ensures
        r@ == rle_decode(payload@),
{
    let n = payload.len();
    let mut decompressed = String::new();
    let mut index: usize = 0;
    assert(payload@.skip(0) =~= payload@);
    assert(decompressed@ + rle_decode(payload@) =~= rle_decode(payload@));
    while index + 1 < n
        invariant
            n == payload@.len(),
            n * 1024 <= isize::MAX,
            index <= n,
            index % 2 == 0,
            decompressed@.len() <= 128 * index,
            rle_decode(payload@) == decompressed@ + rle_decode(payload@.skip(index as int)),
        decreases n - index,
    {
        let symbol_code = payload[index];
        let count = payload[index + 1];
        let character = symbol_code as char;
        let ghost before = decompressed@;
        let mut k: u8 = 0;
        while k < count
            invariant
                n == payload@.len(),
                n * 1024 <= isize::MAX,
                index + 1 < n,
                k <= count,
                before.len() <= 128 * index,
                decompressed@ == before + repeat_char(character, k as nat),
            decreases count - k,
        {
            push_char(&mut decompressed, character);
            assert(decompressed@ =~= before + repeat_char(character, (k + 1) as nat));
            k = k + 1;
        }
        proof {
            let rest = payload@.skip(index as int);
            assert(rest[0] == symbol_code);
            assert(rest[1] == count);
            assert(rest.skip(2) =~= payload@.skip(index + 2));
            assert(decompressed@ + rle_decode(payload@.skip(index + 2)) =~= before + (
            repeat_char(character, count as nat) + rle_decode(payload@.skip(index + 2))));
        }
        index = index + 2;
    }
    proof {
        assert(payload@.skip(index as int).len() < 2);
        assert(decompressed@ + Seq::<char>::empty() =~= decompressed@);
    }
    decompressed
}

proof fn lemma_glyph_byte_char(c: char)
    requires
        (c as u32) < 256,
    ensures
        (glyph_byte(c) as char) == c,
{
    assert((c as u32) as u8 as u32 == c as u32);
}

/// Decompressing what was compressed gives the text back, for every text
/// whose characters each fit in a byte.
pub proof fn lemma_rle_round_trip(s: Seq<char>)
    requires
        is_byte_text(s),
    ensures
        rle_decode(rle_encode(s)) == s,
    decreases s.len(),
{
    if s.len() > 0 {
        let c = s[0];
        let n = run_length(s, c, MAX_RUN as nat);
        lemma_run_length_bounds(s, c, MAX_RUN as nat);
        lemma_run_is_repeat(s, c, MAX_RUN as nat);
        let rest = s.skip(n as int);
        assert(is_byte_text(rest)) by {
            assert forall|k: int| 0 <= k < rest.len() implies (rest[k] as u32) < 256 by {
                assert(rest[k] == s[k + n]);
            }
        }
        lemma_rle_round_trip(rest);
        let e = rle_encode(s);
        assert(e[0] == glyph_byte(c));
        assert(e[1] == n as u8);
        assert(e.skip(2) =~= rle_encode(rest));
        lemma_glyph_byte_char(c);
        assert(repeat_char(e[0] as char, e[1] as nat) =~= s.take(n as int));
        assert(s =~= s.take(n as int) + rest);
    }
}

/// A pair list as compression writes it for runs of at most 255: pairs of
/// (byte, count) with counts from 1 and no two neighbouring pairs of the
/// same byte.
pub open spec fn is_canonical_rle(b: Seq<u8>) -> bool
    decreases b.len(),
{
    if b.len() == 0 {
        true
    } else {
        &&& b.len() >= 2
        &&& b[1] >= 1
        &&& (b.len() >= 4 ==> b[0] != b[2])
        &&& is_canonical_rle(b.skip(2))
    }
}

proof fn lemma_decode_head(b: Seq<u8>)
    requires
        is_canonical_rle(b),
        b.len() > 0,
    ensures
        rle_decode(b).len() > 0,
        rle_decode(b)[0] == b[0] as char,
{
    assert(rle_decode(b) == repeat_char(b[0] as char, b[1] as nat) + rle_decode(b.skip(2)));
    assert(repeat_char(b[0] as char, b[1] as nat)[0] == b[0] as char);
}

proof fn lemma_byte_char_byte(b: u8)
    ensures
        glyph_byte(b as char) == b,
        (b as char as u32) < 256,
{
}

/// Compressing what a canonical pair list decompresses to gives the list
/// back: on such lists the codec is the inverse of decompression.
pub proof fn lemma_rle_canonical_round_trip(b: Seq<u8>)
    requires
        is_canonical_rle(b),
    ensures
        rle_encode(rle_decode(b)) == b,
    decreases b.len(),
{
    if b.len() > 0 {
        let c = b[0] as char;
        let n = b[1] as nat;
        let rest = b.skip(2);
        let head = repeat_char(c, n);
        let tail = rle_decode(rest);
        let s = rle_decode(b);
        assert(s == head + tail);
        lemma_rle_canonical_round_trip(rest);
        assert forall|k: int| 0 <= k < n implies s[k] == c by {
            assert(s[k] == head[k]);
        }
        if tail.len() > 0 {
            assert(rest.len() > 0);
            lemma_decode_head(rest);
            assert(rest[0] == b[2]);
            assert(b[2] as char != b[0] as char) by {
                lemma_byte_char_byte(b[0]);
                lemma_byte_char_byte(b[2]);
            }
            assert(s[n as int] == tail[0]);
        }
        lemma_run_length_exact(s, c, MAX_RUN as nat, n);
        assert(s[0] == c);
        lemma_byte_char_byte(b[0]);
        assert(s.skip(n as int) =~= tail);
        assert(rle_encode(s) == seq![glyph_byte(c), n as u8] + rle_encode(tail));
        assert(rle_encode(s) =~= b);
    }
}

// ---------------------------------------------------------------------------
// Grayscale to glyphs

/// The glyph of a luma value: index `g * 10 / 255` of the table.
pub open spec fn glyph_of(g: u8) -> char {
    ASCII_CHARS@[(g as int * 10) / 255]
}

/// The ASCII art of luma values: one glyph each, and a newline after every
/// full row of the frame's width.
pub open spec fn ascii_art(g: Seq<u8>) -> Seq<char>
    decreases g.len(),
{
    if g.len() == 0 {
        seq![]
    } else {
        let row = ascii_art(g.drop_last()).push(glyph_of(g.last()));
        if g.len() as int % (ASCII_FRAME_WIDTH as int) == 0 {
            row.push('\n')
        } else {
            row
        }
    }
}

pub fn build_ascii_from_grayscale(grayscaled: Vec<u8>) -> (r: String)
    requires
        grayscaled@.len() * 8 <= isize::MAX,
    ensures
        r@ == ascii_art(grayscaled@),
{
    let n = grayscaled.len();
    let mut ascii_image = String::new();
    assert(grayscaled@.take(0) =~= Seq::<u8>::empty());
    for i in 0..n
        invariant
            n == grayscaled@.len(),
            n * 8 <= isize::MAX,
            ascii_image@ == ascii_art(grayscaled@.take(i as int)),
            ascii_image@.len() <= 2 * i,
    {
        let gray = grayscaled[i];
        let ascii_index = (gray as usize * 10) / 255;
        push_char(&mut ascii_image, ASCII_CHARS[ascii_index]);
        if (i + 1) % ASCII_FRAME_WIDTH == 0 {
            push_char(&mut ascii_image, '\n');
        }
        proof {
            let t = grayscaled@.take(i + 1);
            assert(t.drop_last() =~= grayscaled@.take(i as int));
            assert(t.last() == gray);
        }
    }
    assert(grayscaled@.take(n as int) =~= grayscaled@);
    ascii_image
}

// ---------------------------------------------------------------------------
// YUV buffers

/// Why a camera frame cannot be turned into ASCII art.
#[derive(Debug, Clone, Copy, PartialEq, Eq, Structural)]
pub enum FrameError {
    /// The pixel format is neither a YUV variant nor MJPEG.
    UnsupportedPixelFormat,
    /// The buffer's length fits no YUV sizing of the frame's dimensions, or
    /// the frame is smaller than the ASCII frame.
    UnsupportedYuvSize,
    /// The JPEG library could not decode the buffer.
    UndecodableJpeg,
}

/// How the luma samples lie in a YUV buffer.
#[derive(Debug, Clone, Copy, PartialEq, Eq, Structural)]
pub enum YuvLayout {
    /// 4:4:4 planar, three bytes a pixel: the luma plane comes first.
    Planar444,
    /// 4:2:2 packed (YUYV), two bytes a pixel: luma at every even byte.
    Packed422,
    /// 4:2:0 sized at one byte a pixel: the luma plane comes first.
    Planar420,
}

/// The layout that a buffer of `len` bytes has for a `w` by `h` frame.
pub open spec fn yuv_layout(len: int, w: int, h: int) -> Option<YuvLayout> {
    if len == 3 * (w * h) {
        Some(YuvLayout::Planar444)
    } else if len == 2 * (w * h) {
        Some(YuvLayout::Packed422)
    } else if len == w * h {
        Some(YuvLayout::Planar420)
    } else {
        None
    }
}

/// The luma plane of a `w` by `h` frame, row by row.
pub open spec fn luma_plane(yuv: Seq<u8>, w: int, h: int, layout: YuvLayout) -> Seq<u8> {
    if layout == YuvLayout::Packed422 {
        Seq::new((w * h) as nat, |i: int| yuv[2 * i])
    } else {
        Seq::new((w * h) as nat, |i: int| yuv[i])
    }
}

/// The sum of `n` luma values from index `start` on.
pub open spec fn row_sum(l: Seq<u8>, start: int, n: nat) -> nat
    decreases n,
{
    if n == 0 {
        0
    } else {
        row_sum(l, start, (n - 1) as nat) + l[start + n - 1] as nat
    }
}

/// The sum over the first `rows` rows of the block of width `bw` whose top
/// left corner is at (`x0`, `y0`) in an image of width `w`.
pub open spec fn block_sum(l: Seq<u8>, w: int, x0: int, y0: int, bw: nat, rows: nat) -> nat
    decreases rows,
{
    if rows == 0 {
        0
    } else {
        block_sum(l, w, x0, y0, bw, (rows - 1) as nat) + row_sum(
            l,
            (y0 + rows - 1) * w + x0,
            bw,
        )
    }
}

/// The luma image shrunk to the ASCII frame: each cell is the mean, rounded
/// down, of its `bw` by `bh` block.
pub open spec fn downscaled(l: Seq<u8>, w: int, bw: nat, bh: nat) -> Seq<u8> {
    Seq::new(
        (ASCII_FRAME_WIDTH * ASCII_FRAME_HEIGHT) as nat,
        |k: int|
            (block_sum(
                l,
                w,
                (k % ASCII_FRAME_WIDTH as int) * bw,
                (k / ASCII_FRAME_WIDTH as int) * bh,
                bw,
                bh,
            ) / (bw * bh)) as u8,
    )
}

/// The ASCII frame of a YUV buffer, or `None` where it is refused.
pub open spec fn yuv_ascii_frame(yuv: Seq<u8>, w: int, h: int) -> Option<Seq<char>> {
    if w < ASCII_FRAME_WIDTH || h < ASCII_FRAME_HEIGHT || yuv_layout(yuv.len() as int, w, h) is None {
        None
    } else {
        Some(
            ascii_art(
                downscaled(
                    luma_plane(yuv, w, h, yuv_layout(yuv.len() as int, w, h)->0),
                    w,
                    (w / ASCII_FRAME_WIDTH as int) as nat,
                    (h / ASCII_FRAME_HEIGHT as int) as nat,
                ),
            ),
        )
    }
}

proof fn lemma_row_sum_bound(l: Seq<u8>, start: int, n: nat)
    ensures
        row_sum(l, start, n) <= 255 * n,
    decreases n,
{
    if n > 0 {
        lemma_row_sum_bound(l, start, (n - 1) as nat);
    }
}

proof fn lemma_block_sum_bound(l: Seq<u8>, w: int, x0: int, y0: int, bw: nat, rows: nat)
    ensures
        block_sum(l, w, x0, y0, bw, rows) <= 255 * (bw * rows),
    decreases rows,
{
    if rows > 0 {
        lemma_block_sum_bound(l, w, x0, y0, bw, (rows - 1) as nat);
        lemma_row_sum_bound(l, (y0 + rows - 1) * w + x0, bw);
        assert(255 * (bw * (rows - 1)) + 255 * bw == 255 * (bw * rows)) by (nonlinear_arith);
    }
}

/// Where sample (`bx`, `by`) of block (`x`, `y`) lies in the luma plane.
proof fn lemma_block_index(w: int, h: int, bw: int, bh: int, x: int, y: int, bx: int, by: int)
    requires
        0 <= x < ASCII_FRAME_WIDTH,
        0 <= y < ASCII_FRAME_HEIGHT,
        0 <= bx < bw,
        0 <= by < bh,
        ASCII_FRAME_WIDTH * bw <= w,
        ASCII_FRAME_HEIGHT * bh <= h,
    ensures
        0 <= x * bw + bx < w,
        0 <= y * bh + by < h,
        0 <= (y * bh + by) * w + x * bw + bx < w * h,
{
    assert(x * bw <= 191 * bw) by (nonlinear_arith)
        requires
            x <= 191,
            bw >= 0,
    ;
    assert(y * bh <= 53 * bh) by (nonlinear_arith)
        requires
            y <= 53,
            bh >= 0,
    ;
    assert(0 <= x * bw) by (nonlinear_arith)
        requires
            x >= 0,
            bw >= 0,
    ;
    assert(0 <= y * bh) by (nonlinear_arith)
        requires
            y >= 0,
            bh >= 0,
    ;
    let r = y * bh + by;
    let a = x * bw + bx;
    assert(0 <= r * w + a < w * h) by (nonlinear_arith)
        requires
            0 <= r < h,
            0 <= a < w,
    ;
}

/// The luma plane of a YUV buffer.
fn extract_luma(yuv: &[u8], w: usize, h: usize, layout: YuvLayout) -> (r: Vec<u8>)
    requires
        yuv_layout(yuv@.len() as int, w as int, h as int) == Some(layout),
    ensures
        r@ == luma_plane(yuv@, w as int, h as int, layout),
{
    let len = yuv.len();
    proof {
        assert(0 <= w * h) by (nonlinear_arith);
    }
    let wh = w * h;
    let mut grayscale_values: Vec<u8> = Vec::new();
    for i in 0..wh
        invariant
            wh == w * h,
            len == yuv@.len(),
            yuv_layout(yuv@.len() as int, w as int, h as int) == Some(layout),
            grayscale_values@ == luma_plane(yuv@, w as int, h as int, layout).take(i as int),
    {
        if layout == YuvLayout::Packed422 {
            assert(yuv@.len() == 2 * (w * h));
            grayscale_values.push(yuv[2 * i]);
        } else {
            grayscale_values.push(yuv[i]);
        }
        assert(grayscale_values@ =~= luma_plane(yuv@, w as int, h as int, layout).take(
            i + 1,
        ));
    }
    assert(grayscale_values@ =~= luma_plane(yuv@, w as int, h as int, layout));
    grayscale_values
}

/// The luma image shrunk to 192 by 54 by block averages.
fn downscale_luma(grayscale_values: &Vec<u8>, w: usize, h: usize) -> (r: Vec<u8>)
    requires
        grayscale_values@.len() == w * h,
        w >= ASCII_FRAME_WIDTH,
        h >= ASCII_FRAME_HEIGHT,
    ensures
        r@ == downscaled(
            grayscale_values@,
            w as int,
            (w / ASCII_FRAME_WIDTH) as nat,
            (h / ASCII_FRAME_HEIGHT) as nat,
        ),
{
    let ghost l = grayscale_values@;
    let n = grayscale_values.len();
    let block_width = w / ASCII_FRAME_WIDTH;
    let block_height = h / ASCII_FRAME_HEIGHT;
    let ghost d = downscaled(l, w as int, block_width as nat, block_height as nat);
    proof {
        assert(block_width * block_height <= w * h) by (nonlinear_arith)
            requires
                block_width <= w,
                block_height <= h,
        ;
        assert(block_width * block_height >= 1) by (nonlinear_arith)
            requires
                block_width >= 1,
                block_height >= 1,
        ;
    }
    let mut downscaled_grayscale: Vec<u8> = Vec::new();
    for y in 0..ASCII_FRAME_HEIGHT
        invariant
            l == grayscale_values@,
            l.len() == w * h,
            block_width == w / ASCII_FRAME_WIDTH,
            block_height == h / ASCII_FRAME_HEIGHT,
            1 <= block_width * block_height <= w * h,
            n == w * h,
            d == downscaled(l, w as int, block_width as nat, block_height as nat),
            downscaled_grayscale@ == d.take(y * ASCII_FRAME_WIDTH),
    {
        for x in 0..ASCII_FRAME_WIDTH
            invariant
                l == grayscale_values@,
                l.len() == w * h,
                block_width == w / ASCII_FRAME_WIDTH,
                block_height == h / ASCII_FRAME_HEIGHT,
                1 <= block_width * block_height <= w * h,
                n == w * h,
                d == downscaled(l, w as int, block_width as nat, block_height as nat),
                y < ASCII_FRAME_HEIGHT,
                downscaled_grayscale@ == d.take(y * ASCII_FRAME_WIDTH + x),
        {
            let ghost x0 = x * block_width;
            let ghost y0 = y * block_height;
            let mut sum: u128 = 0;
            for by in 0..block_height
                invariant
                    l == grayscale_values@,
                    l.len() == w * h,
                    block_width == w / ASCII_FRAME_WIDTH,
                    block_height == h / ASCII_FRAME_HEIGHT,
                    1 <= block_width * block_height <= w * h,
                    n == w * h,
                    x < ASCII_FRAME_WIDTH,
                    y < ASCII_FRAME_HEIGHT,
                    x0 == x * block_width,
                    y0 == y * block_height,
                    sum == block_sum(l, w as int, x0, y0, block_width as nat, by as nat),
            {
                proof {
                    lemma_block_sum_bound(l, w as int, x0, y0, block_width as nat, by as nat);
                }
                let ghost row_start = (y0 + by) * w + x0;
                for bx in 0..block_width
                    invariant
                        l == grayscale_values@,
                        l.len() == w * h,
                        block_width == w / ASCII_FRAME_WIDTH,
                        block_height == h / ASCII_FRAME_HEIGHT,
                        1 <= block_width * block_height <= w * h,
                        n == w * h,
                        x < ASCII_FRAME_WIDTH,
                        y < ASCII_FRAME_HEIGHT,
                        by < block_height,
                        x0 == x * block_width,
                        y0 == y * block_height,
                        row_start == (y0 + by) * w + x0,
                        block_sum(l, w as int, x0, y0, block_width as nat, by as nat) <= 255 * (
                        block_width * by),
                        sum == block_sum(l, w as int, x0, y0, block_width as nat, by as nat)
                            + row_sum(l, row_start, bx as nat),
                {
                    proof {
                        lemma_block_index(
                            w as int,
                            h as int,
                            block_width as int,
                            block_height as int,
                            x as int,
                            y as int,
                            bx as int,
                            by as int,
                        );
                        lemma_row_sum_bound(l, row_start, bx as nat);
                        assert(block_width * by <= w * h) by (nonlinear_arith)
                            requires
                                by < block_height,
                                block_width * block_height <= w * h,
                        ;
                        assert((y0 + by) * w + x0 + bx == (y * block_height + by) * w + x
                            * block_width + bx);
                    }
                    let orig_x = x * block_width + bx;
                    let orig_y = y * block_height + by;
                    let idx = orig_y * w + orig_x;
                    sum = sum + grayscale_values[idx] as u128;
                }
            }
            proof {
                lemma_block_sum_bound(l, w as int, x0, y0, block_width as nat, block_height as nat);
                let c = block_width * block_height;
                vstd::arithmetic::div_mod::lemma_div_is_ordered(sum as int, 255 * c, c as int);
                vstd::arithmetic::div_mod::lemma_div_multiples_vanish(255, c as int);
                assert(255 * c == c * 255);
            }
            let avg_gray = (sum / ((block_width * block_height) as u128)) as u8;
            downscaled_grayscale.push(avg_gray);
            proof {
                let k = y * ASCII_FRAME_WIDTH + x;
                assert(k % (ASCII_FRAME_WIDTH as int) == x);
                assert(k / (ASCII_FRAME_WIDTH as int) == y);
                assert(d[k as int] == avg_gray);
                assert(downscaled_grayscale@ =~= d.take(k + 1));
            }
        }
    }
    assert(downscaled_grayscale@ =~= d);
    downscaled_grayscale
}

/// The ASCII frame of a YUV buffer: its luma plane, shrunk to 192 by 54 by
/// block averages, drawn in glyphs.
pub fn yuv_to_ascii_image(yuv: &[u8], source_width: usize, source_height: usize) -> (r:
    Result<String, FrameError>)
    ensures
        r matches Ok(s) ==> yuv_ascii_frame(yuv@, source_width as int, source_height as int)
            == Some(s@),
        r matches Err(e) ==> e == FrameError::UnsupportedYuvSize && yuv_ascii_frame(
            yuv@,
            source_width as int,
            source_height as int,
        ) is None,
{
    let w = source_width;
    let h = source_height;
    let len = yuv.len();
    if w < ASCII_FRAME_WIDTH || h < ASCII_FRAME_HEIGHT {
        return Err(FrameError::UnsupportedYuvSize);
    }
    if h > len / w {
        proof {
            vstd::arithmetic::div_mod::lemma_fundamental_div_mod(len as int, w as int);
            let q = len as int / w as int;
            assert(w * h >= w * (q + 1)) by (nonlinear_arith)
                requires
                    h >= q + 1,
                    w >= 0,
            ;
            assert(w * (q + 1) == w * q + w) by (nonlinear_arith);
        }
        return Err(FrameError::UnsupportedYuvSize);
    }
    proof {
        vstd::arithmetic::div_mod::lemma_fundamental_div_mod(len as int, w as int);
        vstd::arithmetic::div_mod::lemma_mod_pos_bound(len as int, w as int);
        let q = len as int / w as int;
        assert(w * h <= w * q) by (nonlinear_arith)
            requires
                h <= q,
                w >= 0,
        ;
        assert(w * h <= len);
    }
    let wh = w * h;
    let layout = if wh <= len / 3 && wh * 3 == len {
        YuvLayout::Planar444
    } else if wh <= len / 2 && wh * 2 == len {
        YuvLayout::Packed422
    } else if wh == len {
        YuvLayout::Planar420
    } else {
        return Err(FrameError::UnsupportedYuvSize);
    };
    let grayscale_values = extract_luma(yuv, w, h, layout);
    let downscaled_grayscale = downscale_luma(&grayscale_values, w, h);
    Ok(build_ascii_from_grayscale(downscaled_grayscale))
}

// ---------------------------------------------------------------------------
// JPEG buffers and the dispatch on pixel formats

/// The ASCII frame of a JPEG image: decoded, resized to 192 by 54 with the
/// nearest-neighbour filter, turned to luma and drawn in glyphs.
pub fn jpeg_to_ascii_image(jpeg: &[u8]) -> (r: Result<String, FrameError>)
    ensures
        r is Ok == jpeg_luma(jpeg@, ASCII_FRAME_WIDTH as u32, ASCII_FRAME_HEIGHT as u32) is Some,
        r matches Ok(s) ==> s@ == ascii_art(
            jpeg_luma(jpeg@, ASCII_FRAME_WIDTH as u32, ASCII_FRAME_HEIGHT as u32)->0,
        ),
        r matches Err(e) ==> e == FrameError::UndecodableJpeg,
{
    match decode_jpeg_luma(jpeg, ASCII_FRAME_WIDTH as u32, ASCII_FRAME_HEIGHT as u32) {
        Some(luma) => Ok(build_ascii_from_grayscale(luma)),
        None => Err(FrameError::UndecodableJpeg),
    }
}

/// The pixel formats that a camera may deliver.
#[derive(Debug, Clone, Copy, PartialEq, Eq, Structural)]
pub enum PixelFormat {
    Yuyv,
    Yuv444,
    Yuv420,
    Mjpeg,
    Other,
}

/// The transform stage for one camera frame: YUV variants go through the
/// luma plane, MJPEG through the JPEG decoder; other formats are refused.
pub fn frame_to_ascii(format: PixelFormat, width: usize, height: usize, buffer: &[u8]) -> (r:
    Result<String, FrameError>)
    ensures
        format == PixelFormat::Other ==> r == Err::<String, FrameError>(
            FrameError::UnsupportedPixelFormat,
        ),
        format == PixelFormat::Yuyv || format == PixelFormat::Yuv444 || format
            == PixelFormat::Yuv420 ==> match r {
            Ok(s) => yuv_ascii_frame(buffer@, width as int, height as int) == Some(s@),
            Err(e) => e == FrameError::UnsupportedYuvSize && yuv_ascii_frame(
                buffer@,
                width as int,
                height as int,
            ) is None,
        },
        format == PixelFormat::Mjpeg ==> match r {
            Ok(s) => jpeg_luma(buffer@, ASCII_FRAME_WIDTH as u32, ASCII_FRAME_HEIGHT as u32) is Some
                && s@ == ascii_art(
                jpeg_luma(buffer@, ASCII_FRAME_WIDTH as u32, ASCII_FRAME_HEIGHT as u32)->0,
            ),
            Err(e) => e == FrameError::UndecodableJpeg && jpeg_luma(
                buffer@,
                ASCII_FRAME_WIDTH as u32,
                ASCII_FRAME_HEIGHT as u32,
            ) is None,
        },
{
    match format {
        PixelFormat::Yuyv | PixelFormat::Yuv444 | PixelFormat::Yuv420 => yuv_to_ascii_image(
            buffer,
            width,
            height,
        ),
        PixelFormat::Mjpeg => jpeg_to_ascii_image(buffer),
        PixelFormat::Other => Err(FrameError::UnsupportedPixelFormat),
    }
}

} // verus!
