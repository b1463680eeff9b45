//! Exact, byte-reproducible uncompressed bitmap encoding of RGB24 and
//! RGBA32 pixel buffers, and its base64 rendering for inline previews.

use vstd::prelude::*;

verus! {

/// `n` as four little-endian bytes.
pub open spec fn le4(n: nat) -> Seq<u8> {
    seq![
        (n % 256) as u8,
        ((n / 256) % 256) as u8,
        ((n / 65536) % 256) as u8,
        ((n / 16777216) % 256) as u8,
    ]
}

/// `n` as two little-endian bytes.
pub open spec fn le2(n: nat) -> Seq<u8> {
    seq![(n % 256) as u8, ((n / 256) % 256) as u8]
}

/// A bitmap row is the packed 24-bit pixels padded to a 4-byte boundary.
pub open spec fn bmp_row_size(w: nat) -> nat {
    ((w * 3 + 3) / 4) * 4
}

/// The height field of the info header: the negation of the pixel height
/// in 32-bit two's complement, selecting top-down row order.
pub open spec fn neg_height(h: nat) -> nat {
    if h == 0 {
        0
    } else {
        (0x100000000 - h) as nat
    }
}

/// The 54 header bytes: the file header (`BM`, file size, reserved
/// zeros, pixel-data offset 54) followed by the 40-byte info header
/// (size 40, width, negated height, 1 plane, 24 bits per pixel, no
/// compression, data size, and zeroed resolution and palette fields).
#[verifier::opaque]
pub open spec fn bmp_header(w: nat, h: nat) -> Seq<u8> {
    seq![66u8, 77u8] + le4(54 + bmp_row_size(w) * h) + seq![0u8, 0u8, 0u8, 0u8] + le4(54) + le4(40)
        + le4(w) + le4(neg_height(h)) + le2(1) + le2(24) + le4(0) + le4(bmp_row_size(w) * h) + le4(
        0,
    ) + le4(0) + le4(0) + le4(0)
}

/// Byte `o` of the pixel-data area: rows in top-down order, each pixel
/// written blue, green, red, each row zero-padded to the row size.
pub open spec fn bmp_pixel_byte(rgb: Seq<u8>, w: nat, o: nat) -> u8 {
    let row = bmp_row_size(w);
    let y = o / row;
    let x = o % row;
    if x < 3 * w {
        rgb[(y * 3 * w + (x / 3) * 3 + (2 - x % 3)) as int]
    } else {
        0
    }
}

/// The whole bitmap file for an RGB24 buffer of `w * h` pixels.
#[verifier::opaque]
pub open spec fn bmp_bytes(rgb: Seq<u8>, w: nat, h: nat) -> Seq<u8> {
    bmp_header(w, h) + Seq::new(bmp_row_size(w) * h, |o: int| bmp_pixel_byte(rgb, w, o as nat))
}

/// Appends the four little-endian bytes of `v`; values beyond 32 bits
/// are truncated, as storing into a 4-byte field does.
fn push_le4(out: &mut Vec<u8>, v: u64)
    ensures
        final(out)@ == old(out)@ + le4(v as nat),
{
    let ghost pre = out@;
    out.push((v % 256) as u8);
    out.push(((v / 256) % 256) as u8);
    out.push(((v / 65536) % 256) as u8);
    out.push(((v / 16777216) % 256) as u8);
    proof {
        assert(out@ =~= pre + le4(v as nat));
    }
}

/// Appends the two little-endian bytes of `v`.
fn push_le2(out: &mut Vec<u8>, v: u64)
    requires
        v < 0x10000,
    ensures
        final(out)@ == old(out)@ + le2(v as nat),
{
    let ghost pre = out@;
    out.push((v % 256) as u8);
    out.push(((v / 256) % 256) as u8);
    proof {
        assert(out@ =~= pre + le2(v as nat));
    }
}

/// A position inside a row splits off the row index and the offset.
proof fn lemma_row_pos(row: int, y: int, t: int)
    requires
        row > 0,
        y >= 0,
        0 <= t < row,
    ensures
        (y * row + t) / row == y,
        (y * row + t) % row == t,
{
    assert((y * row + t) / row == y && (y * row + t) % row == t) by (nonlinear_arith)
        requires
            row > 0,
            y >= 0,
            0 <= t < row,
    ;
}

/// The bitmap file is the 54 header bytes followed by the pixel area,
/// indexed by `bmp_pixel_byte`.
proof fn lemma_bmp_byte(rgb: Seq<u8>, w: nat, h: nat, o: int)
    requires
        0 <= o < bmp_row_size(w) * h,
    ensures
        bmp_bytes(rgb, w, h).len() == 54 + bmp_row_size(w) * h,
        bmp_bytes(rgb, w, h)[54 + o] == bmp_pixel_byte(rgb, w, o as nat),
{
    reveal(bmp_bytes);
    reveal(bmp_header);
    assert(bmp_header(w, h).len() == 54);
}

/// The first 54 bytes of the bitmap file are the header, and the file
/// length is the header plus the padded pixel rows.
proof fn lemma_bmp_prefix(rgb: Seq<u8>, w: nat, h: nat)
    ensures
        bmp_header(w, h).len() == 54,
        bmp_bytes(rgb, w, h).len() == 54 + bmp_row_size(w) * h,
        forall|i: int| 0 <= i < 54 ==> bmp_bytes(rgb, w, h)[i] == bmp_header(w, h)[i],
{
    reveal(bmp_bytes);
    reveal(bmp_header);
}

/// Writes the 54 header bytes into an empty buffer.
#[verifier::rlimit(100)]
fn write_bmp_header(out: &mut Vec<u8>, width: u32, height: u32, pixel_data_size: u64)
    requires
        old(out)@.len() == 0,
        pixel_data_size <= u64::MAX - 54,
        pixel_data_size == bmp_row_size(width as nat) * height,
    ensures
        final(out)@ == bmp_header(width as nat, height as nat),
{
    out.push(66);
    out.push(77);
    push_le4(out, 54 + pixel_data_size);
    push_le4(out, 0);
    push_le4(out, 54);
    push_le4(out, 40);
    push_le4(out, width as u64);
    let neg_h: u64 = if height == 0 {
        0
    } else {
        0x100000000u64 - (height as u64)
    };
    push_le4(out, neg_h);
    push_le2(out, 1);
    push_le2(out, 24);
    push_le4(out, 0);
    push_le4(out, pixel_data_size);
    push_le4(out, 0);
    push_le4(out, 0);
    push_le4(out, 0);
    push_le4(out, 0);
    proof {
        reveal(bmp_header);
        assert(le4(0) =~= seq![0u8, 0u8, 0u8, 0u8]);
        assert(out@ =~= bmp_header(width as nat, height as nat));
    }
}

/// Encodes an RGB24 buffer (3 bytes per pixel, row-major, top row first)
/// as a complete uncompressed bitmap file: `BM`, little-endian sizes,
/// pixel-data offset 54, negative height, pixels as blue-green-red with
/// rows padded to 4 bytes. A buffer whose length is not `w * h * 3`
/// yields an empty result.
#[verifier::rlimit(100)]
pub fn bmp_rgb24_top_down(rgb: &Vec<u8>, width: u32, height: u32) -> (r: Vec<u8>)
    requires
        rgb@.len() == 3 * width * height ==> 54 + bmp_row_size(width as nat) * height
            <= usize::MAX,
    ensures
        rgb@.len() == 3 * width * height ==> r@ == bmp_bytes(rgb@, width as nat, height as nat),
        rgb@.len() != 3 * width * height ==> r@ == Seq::<u8>::empty(),
{
    proof {
        assert((width as int) * (height as int) < 0x10000000000000000) by (nonlinear_arith)
            requires
                width < 0x100000000,
                height < 0x100000000,
        ;
    }
    let wh: u64 = (width as u64) * (height as u64);
    let need: u128 = 3 * (wh as u128);
    proof {
        assert(3 * (wh as int) == 3 * (width as int) * (height as int)) by (nonlinear_arith)
            requires
                wh == (width as int) * (height as int),
        ;
    }
    if (rgb.len() as u128) != need {
        let r: Vec<u8> = Vec::new();
        assert(r@ =~= Seq::<u8>::empty());
        return r;
    }
    let w = width as usize;
    let h = height as usize;
    proof {
        assert(3 * (width as int) * (height as int) == 3 * ((width as int) * (height as int)))
            by (nonlinear_arith);
        assert(rgb@.len() == 3 * (w as int) * (h as int));
        assert(54 + bmp_row_size(width as nat) * (height as int) <= usize::MAX);
    }
    let row_size: u64 = (((width as u64) * 3 + 3) / 4) * 4;
    proof {
        assert(row_size == bmp_row_size(width as nat));
        assert(3 * (w as int) <= row_size <= 3 * (w as int) + 3);
        if height > 0 {
            assert(row_size <= row_size * (height as int)) by (nonlinear_arith)
                requires
                    height >= 1,
                    row_size >= 0,
            ;
        }
    }
    let padding: u64 = row_size - (width as u64) * 3;
    let pixel_data_size: u64 = if height == 0 {
        0
    } else {
        row_size * (height as u64)
    };
    let ghost full = bmp_bytes(rgb@, width as nat, height as nat);
    proof {
        lemma_bmp_prefix(rgb@, width as nat, height as nat);
        if height == 0 {
            assert(bmp_row_size(width as nat) * 0 == 0) by (nonlinear_arith);
        } else {
            assert(pixel_data_size == bmp_row_size(width as nat) * height) by (nonlinear_arith)
                requires
                    pixel_data_size == row_size * (height as int),
                    row_size == bmp_row_size(width as nat),
            ;
        }
        assert(pixel_data_size == bmp_row_size(width as nat) * height);
        assert(full.len() == 54 + row_size * (height as int)) by (nonlinear_arith)
            requires
                full.len() == 54 + bmp_row_size(width as nat) * height,
                row_size == bmp_row_size(width as nat),
        ;
    }

    let mut out: Vec<u8> = Vec::new();
    write_bmp_header(&mut out, width, height, pixel_data_size);
    proof {
        lemma_bmp_prefix(rgb@, width as nat, height as nat);
        assert(out@.len() == 54);
        assert(forall|i: int| 0 <= i < 54 ==> out@[i] == full[i]);
    }

    let pad = padding as usize;
    let ghost grow = row_size as int;
    let mut y: usize = 0;
    while y < h
        invariant
            out@.len() == 54 + y * grow,
            0 <= y <= h,
            w == width,
            h == height,
            rgb@.len() == 3 * w * h,
            rgb@.len() <= usize::MAX,
            grow == bmp_row_size(width as nat),
            3 * w <= grow <= 3 * w + 3,
            pad == grow - 3 * w,
            full == bmp_bytes(rgb@, width as nat, height as nat),
            full.len() == 54 + grow * h,
            54 + grow * h <= usize::MAX,
            forall|i: int| 0 <= i < out@.len() ==> out@[i] == full[i],
        decreases h - y,
    {
        proof {
            assert(y * grow + grow <= grow * h) by (nonlinear_arith)
                requires
                    0 <= y < h,
                    grow >= 0,
            ;
        }
        let mut x: usize = 0;
        while x < w
            invariant
                out@.len() == 54 + y * grow + 3 * x,
                0 <= x <= w,
                y < h,
                w == width,
                h == height,
                rgb@.len() == 3 * w * h,
                rgb@.len() <= usize::MAX,
                grow == bmp_row_size(width as nat),
                3 * w <= grow <= 3 * w + 3,
                full == bmp_bytes(rgb@, width as nat, height as nat),
                full.len() == 54 + grow * h,
                54 + grow * h <= usize::MAX,
                y * grow + grow <= grow * h,
                forall|i: int| 0 <= i < out@.len() ==> out@[i] == full[i],
            decreases w - x,
        {
            proof {
                assert(0 <= y * w && y * w + x < 3 * w * h && 3 * (y * w + x) + 3 <= 3 * w * h
                    && 3 * (y * w + x) == y * (3 * w) + 3 * x) by (nonlinear_arith)
                    requires
                        0 <= y < h,
                        0 <= x < w,
                ;
            }
            let base = 3 * (y * w + x);
            let ghost opos = out@.len() as int;
            out.push(rgb[base + 2]);
            out.push(rgb[base + 1]);
            out.push(rgb[base]);
            proof {
                let gy = y as int;
                let gx = x as int;
                assert forall|i: int| opos <= i < opos + 3 implies out@[i] == #[trigger] full[i]
                    by {
                    let c = i - opos;
                    let t = 3 * gx + c;
                    lemma_row_pos(grow, gy, t);
                    lemma_bmp_byte(rgb@, width as nat, height as nat, gy * grow + t);
                    assert(t / 3 == gx && t % 3 == c) by (nonlinear_arith)
                        requires
                            0 <= c < 3,
                            gx >= 0,
                            t == 3 * gx + c,
                    ;
                    assert(gy * 3 * (w as int) + 3 * gx + (2 - c) == 3 * (gy * (w as int) + gx)
                        + (2 - c)) by (nonlinear_arith);
                    assert(bmp_pixel_byte(rgb@, width as nat, (gy * grow + t) as nat) == rgb@[gy * 3
                        * (w as int) + 3 * gx + (2 - c)]);
                }
            }
            x += 1;
        }
        let mut p: usize = 0;
        while p < pad
            invariant
                out@.len() == 54 + y * grow + 3 * w + p,
                0 <= p <= pad,
                y < h,
                w == width,
                h == height,
                rgb@.len() == 3 * w * h,
                rgb@.len() <= usize::MAX,
                grow == bmp_row_size(width as nat),
                3 * w <= grow <= 3 * w + 3,
                pad == grow - 3 * w,
                full == bmp_bytes(rgb@, width as nat, height as nat),
                full.len() == 54 + grow * h,
                54 + grow * h <= usize::MAX,
                y * grow + grow <= grow * h,
                forall|i: int| 0 <= i < out@.len() ==> out@[i] == full[i],
            decreases pad - p,
        {
            let ghost opos = out@.len() as int;
            out.push(0);
            proof {
                let gy = y as int;
                let t = 3 * (w as int) + p as int;
                lemma_row_pos(grow, gy, t);
                lemma_bmp_byte(rgb@, width as nat, height as nat, gy * grow + t);
            }
            p += 1;
        }
        y += 1;
        proof {
            assert((y as int) * grow == (y - 1) * grow + grow) by (nonlinear_arith);
        }
    }
    proof {
        assert(out@.len() == 54 + (h as int) * grow);
        assert((h as int) * grow == grow * (h as int)) by (nonlinear_arith);
        assert(out@ =~= full);
    }
    out
}


/// The RGB24 contents of an RGBA32 buffer: every pixel's alpha byte is
/// dropped.
pub open spec fn rgb_of_rgba(buf: Seq<u8>) -> Seq<u8> {
    Seq::new(3 * (buf.len() / 4), |i: int| buf[4 * (i / 3) + i % 3])
}

/// Drops the alpha byte of every RGBA32 pixel.
pub fn rgba_to_rgb(buf: &Vec<u8>) -> (r: Vec<u8>)
    requires
        buf@.len() % 4 == 0,
    ensures
        r@ == rgb_of_rgba(buf@),
{
    let ghost full = rgb_of_rgba(buf@);
    let n = buf.len();
    let pixels = n / 4;
    let mut out: Vec<u8> = Vec::new();
    let mut p: usize = 0;
    while p < pixels
        invariant
            n == buf@.len(),
            n % 4 == 0,
            pixels == n / 4,
            0 <= p <= pixels,
            out@.len() == 3 * p,
            full == rgb_of_rgba(buf@),
            full.len() == 3 * pixels,
            forall|i: int| 0 <= i < out@.len() ==> out@[i] == full[i],
        decreases pixels - p,
    {
        proof {
            assert(4 * p + 4 <= n && 3 * p + 3 <= 3 * pixels) by (nonlinear_arith)
                requires
                    0 <= p < pixels,
                    pixels == n / 4,
                    n % 4 == 0,
            ;
        }
        let base = 4 * p;
        let ghost opos = out@.len() as int;
        out.push(buf[base]);
        out.push(buf[base + 1]);
        out.push(buf[base + 2]);
        proof {
            let gp = p as int;
            assert forall|i: int| opos <= i < opos + 3 implies out@[i] == #[trigger] full[i] by {
                let c = i - opos;
                assert((3 * gp + c) / 3 == gp && (3 * gp + c) % 3 == c) by (nonlinear_arith)
                    requires
                        0 <= c < 3,
                        gp >= 0,
                ;
                assert(full[i] == buf@[4 * gp + c]);
            }
        }
        p += 1;
    }
    proof {
        assert(out@ =~= full);
    }
    out
}

/// What the base64 standard-alphabet padded encoding of a byte sequence
/// is; named here, stated nowhere, since writing it out would restate the
/// outside encoder.
pub uninterp spec fn base64_of(bytes: Seq<u8>) -> Seq<char>;

/// Relies on base64's `STANDARD` engine `encode`: the padded encoding of
/// the input bytes, a function of the bytes alone, four output characters
/// for every three input bytes (rounded up); it is empty exactly on empty
/// input.
#[verifier::external_body]
fn base64_encode(bytes: &Vec<u8>) -> (r: String)
    requires
        4 * ((bytes@.len() + 2) / 3) <= usize::MAX,
    ensures
        r@ == base64_of(bytes@),
        r@.len() == 4 * ((bytes@.len() + 2) / 3),
{
    base64::engine::Engine::encode(&base64::engine::general_purpose::STANDARD, bytes)
}

/// Encodes a pixel buffer as a base64 bitmap file. An RGB24 buffer
/// (`w * h * 3` bytes) is encoded directly; an RGBA32 buffer
/// (`w * h * 4` bytes) has its alpha channel dropped first; any other
/// length yields an empty string.
pub fn encode_bmp_from_rgb_or_rgba(buf: &Vec<u8>, width: u32, height: u32) -> (r: String)
    requires
        buf@.len() == 3 * width * height || buf@.len() == 4 * width * height ==> 4 * ((54
            + bmp_row_size(width as nat) * height + 2) / 3) <= usize::MAX,
    ensures
        buf@.len() == 3 * width * height ==> r@ == base64_of(
            bmp_bytes(buf@, width as nat, height as nat),
        ),
        buf@.len() != 3 * width * height && buf@.len() == 4 * width * height ==> r@ == base64_of(
            bmp_bytes(rgb_of_rgba(buf@), width as nat, height as nat),
        ),
        buf@.len() != 3 * width * height && buf@.len() != 4 * width * height ==> r@.len() == 0,
{
    proof {
        assert((width as int) * (height as int) < 0x10000000000000000) by (nonlinear_arith)
            requires
                width < 0x100000000,
                height < 0x100000000,
        ;
    }
    let wh: u64 = (width as u64) * (height as u64);
    let expected_rgb: u128 = 3 * (wh as u128);
    let expected_rgba: u128 = 4 * (wh as u128);
    proof {
        assert(3 * (wh as int) == 3 * (width as int) * (height as int) && 4 * (wh as int) == 4 * (
        width as int) * (height as int)) by (nonlinear_arith)
            requires
                wh == (width as int) * (height as int),
        ;
    }
    if (buf.len() as u128) == expected_rgb {
        let bmp = bmp_rgb24_top_down(buf, width, height);
        proof {
            lemma_bmp_prefix(buf@, width as nat, height as nat);
        }
        base64_encode(&bmp)
    } else if (buf.len() as u128) == expected_rgba {
        proof {
            assert(buf@.len() == 4 * (wh as int));
            assert(buf@.len() % 4 == 0);
            assert(buf@.len() / 4 == wh as int);
        }
        let rgb = rgba_to_rgb(buf);
        proof {
            assert(rgb@.len() == 3 * (wh as int));
            lemma_bmp_prefix(rgb@, width as nat, height as nat);
        }
        let bmp = bmp_rgb24_top_down(&rgb, width, height);
        base64_encode(&bmp)
    } else {
        String::new()
    }
}

/// Every bitmap the encoder produces from a well-sized buffer begins
/// with `BM`, declares pixel-data offset 54, declares the height as the
/// negation of the input height, and keeps every pixel recoverable:
/// byte `54 + y*row + 3x + (2 - c)` of the file is channel `c` of input
/// pixel `(x, y)`, which is what a reader of top-down 24-bit bitmap
/// files reconstructs.
pub proof fn lemma_bmp_roundtrip(rgb: Seq<u8>, w: nat, h: nat)
    requires
        rgb.len() == 3 * w * h,
    ensures
        bmp_bytes(rgb, w, h).len() == 54 + bmp_row_size(w) * h,
        bmp_bytes(rgb, w, h)[0] == 66,
        bmp_bytes(rgb, w, h)[1] == 77,
        bmp_bytes(rgb, w, h).subrange(10, 14) == le4(54),
        bmp_bytes(rgb, w, h).subrange(22, 26) == le4(neg_height(h)),
        forall|y: int, x: int, c: int|
            0 <= y < h && 0 <= x < w && 0 <= c < 3 ==> #[trigger] bmp_bytes(rgb, w, h)[54 + y
                * bmp_row_size(w) + 3 * x + (2 - c)] == rgb[3 * (y * w + x) + c],
{
    reveal(bmp_bytes);
    reveal(bmp_header);
    assert(bmp_bytes(rgb, w, h).subrange(10, 14) =~= le4(54));
    assert(bmp_bytes(rgb, w, h).subrange(22, 26) =~= le4(neg_height(h)));
    let row = bmp_row_size(w) as int;
    assert(3 * w <= row <= 3 * w + 3);
    assert forall|y: int, x: int, c: int|
        0 <= y < h && 0 <= x < w && 0 <= c < 3 implies #[trigger] bmp_bytes(rgb, w, h)[54 + y * row
        + 3 * x + (2 - c)] == rgb[3 * (y * w + x) + c] by {
        let t = 3 * x + (2 - c);
        assert(y * row + t < row * h && 0 <= y * row) by (nonlinear_arith)
            requires
                0 <= y < h,
                0 <= t < row,
                row > 0,
        ;
        lemma_row_pos(row, y, t);
        assert(t / 3 == x && t % 3 == 2 - c) by (nonlinear_arith)
            requires
                0 <= 2 - c < 3,
                x >= 0,
                t == 3 * x + (2 - c),
        ;
        assert(bmp_pixel_byte(rgb, w, (y * row + t) as nat) == rgb[y * 3 * (w as int) + 3 * x + (2
            - (2 - c))]);
        assert(y * 3 * (w as int) + 3 * x + c == 3 * (y * (w as int) + x) + c && 3 * (y * (
        w as int) + x) + c < 3 * w * h) by (nonlinear_arith)
            requires
                0 <= y < h,
                0 <= x < w,
                0 <= c < 3,
        ;
    }
}


/// The alpha-dropping corollary: a bitmap encoded from an RGBA32 buffer
/// keeps every color channel recoverable, the alpha bytes dropped.
pub proof fn lemma_bmp_roundtrip_rgba(rgba: Seq<u8>, w: nat, h: nat)
    requires
        rgba.len() == 4 * w * h,
    ensures
        ({
            let b = bmp_bytes(rgb_of_rgba(rgba), w, h);
            &&& b.len() == 54 + bmp_row_size(w) * h
            &&& b[0] == 66
            &&& b[1] == 77
            &&& b.subrange(10, 14) == le4(54)
            &&& b.subrange(22, 26) == le4(neg_height(h))
            &&& forall|y: int, x: int, c: int|
                0 <= y < h && 0 <= x < w && 0 <= c < 3 ==> #[trigger] b[54 + y * bmp_row_size(w)
                    + 3 * x + (2 - c)] == rgba[4 * (y * w + x) + c]
        }),
{
    let rgb = rgb_of_rgba(rgba);
    assert(rgba.len() / 4 == w * h) by (nonlinear_arith)
        requires
            rgba.len() == 4 * w * h,
    ;
    assert(rgb.len() == 3 * w * h) by (nonlinear_arith)
        requires
            rgb.len() == 3 * (w * h),
    ;
    lemma_bmp_roundtrip(rgb, w, h);
    let b = bmp_bytes(rgb, w, h);
    assert forall|y: int, x: int, c: int|
        0 <= y < h && 0 <= x < w && 0 <= c < 3 implies #[trigger] b[54 + y * bmp_row_size(w) + 3
        * x + (2 - c)] == rgba[4 * (y * w + x) + c] by {
        let p = y * w + x;
        assert(0 <= p && p < w * h && 3 * p + c < 3 * (w * h)) by (nonlinear_arith)
            requires
                0 <= y < h,
                0 <= x < w,
                0 <= c < 3,
                p == y * w + x,
        ;
        assert(b[54 + y * bmp_row_size(w) + 3 * x + (2 - c)] == rgb[3 * p + c]);
        assert((3 * p + c) / 3 == p && (3 * p + c) % 3 == c) by (nonlinear_arith)
            requires
                0 <= c < 3,
                p >= 0,
        ;
        assert(rgb[3 * p + c] == rgba[4 * p + c]);
    }
}

} // verus!
