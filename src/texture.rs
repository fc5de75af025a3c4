//! The ten tiled pixel formats and their decoding into RGBA rows.

use vstd::prelude::*;

use crate::error::{Error, Field};
use crate::reader::{be_u16, be_u32, u16_at, u32_at};
use vstd::arithmetic::div_mod::lemma_fundamental_div_mod_converse;

verus! {

/// A decoded RGBA colour.
#[derive(Clone, Copy, Debug, PartialEq, Eq, Structural)]
pub struct Rgba {
    pub r: u8,
    pub g: u8,
    pub b: u8,
    pub a: u8,
}

/// The ten tiled pixel formats.
#[derive(Clone, Copy, Debug, PartialEq, Eq, Structural)]
pub enum TextureFormat {
    I4,
    I8,
    Ia4,
    Ia8,
    C4,
    C8,
    Rgb565,
    Rgb5a3,
    Rgba8,
    Cmpr,
}

/// A decoded image: `rgba` holds four bytes per pixel, row by row, with the
/// rows mirrored relative to their stored order.
pub struct Raster {
    pub width: usize,
    pub height: usize,
    pub rgba: Vec<u8>,
}

pub open spec fn format_of(tag: u32) -> Option<TextureFormat> {
    if tag == 0 {
        Some(TextureFormat::I4)
    } else if tag == 1 {
        Some(TextureFormat::I8)
    } else if tag == 2 {
        Some(TextureFormat::Ia4)
    } else if tag == 3 {
        Some(TextureFormat::Ia8)
    } else if tag == 4 {
        Some(TextureFormat::C4)
    } else if tag == 5 {
        Some(TextureFormat::C8)
    } else if tag == 7 {
        Some(TextureFormat::Rgb565)
    } else if tag == 8 {
        Some(TextureFormat::Rgb5a3)
    } else if tag == 9 {
        Some(TextureFormat::Rgba8)
    } else if tag == 10 {
        Some(TextureFormat::Cmpr)
    } else {
        None
    }
}

/// The width of a format's tile in pixels.
pub open spec fn tile_width(f: TextureFormat) -> nat {
    match f {
        TextureFormat::Ia8 | TextureFormat::Rgb565 | TextureFormat::Rgb5a3 | TextureFormat::Rgba8 => 4,
        _ => 8,
    }
}

/// The height of a format's tile in pixels.
pub open spec fn tile_height(f: TextureFormat) -> nat {
    match f {
        TextureFormat::I4 | TextureFormat::C4 | TextureFormat::Cmpr => 8,
        _ => 4,
    }
}

pub open spec fn tile_bytes(f: TextureFormat) -> nat {
    match f {
        TextureFormat::Rgba8 => 64,
        _ => 32,
    }
}

/// Where the pixel tiles start: after the palette header and palette, if any.
pub open spec fn pixel_base(f: TextureFormat) -> nat {
    match f {
        TextureFormat::C4 => 40,
        TextureFormat::C8 => 520,
        _ => 0,
    }
}

pub open spec fn tiles_across(f: TextureFormat, w: nat) -> nat {
    (w + tile_width(f) - 1) as nat / tile_width(f)
}

pub open spec fn tiles_down(f: TextureFormat, h: nat) -> nat {
    (h + tile_height(f) - 1) as nat / tile_height(f)
}

/// The bytes that an image of `w` by `h` pixels takes in format `f`.
pub open spec fn payload_len(f: TextureFormat, w: nat, h: nat) -> nat {
    pixel_base(f) + tile_bytes(f) * (tiles_across(f, w) * tiles_down(f, h))
}

/// Widens a 3-bit channel to 8 bits by repeating its bits.
pub open spec fn extend3(x: int) -> u8 {
    (x * 32 + x * 4 + x / 2) as u8
}

pub open spec fn extend4(x: int) -> u8 {
    (x * 16 + x) as u8
}

pub open spec fn extend5(x: int) -> u8 {
    (x * 8 + x / 4) as u8
}

pub open spec fn extend6(x: int) -> u8 {
    (x * 4 + x / 16) as u8
}

pub open spec fn rgb565(c: u16) -> Rgba {
    Rgba {
        r: extend5(c as int / 2048),
        g: extend6((c as int / 32) % 64),
        b: extend5(c as int % 32),
        a: 255,
    }
}

pub open spec fn rgb5a3(c: u16) -> Rgba {
    if c < 0x8000 {
        Rgba {
            r: extend4((c as int / 256) % 16),
            g: extend4((c as int / 16) % 16),
            b: extend4(c as int % 16),
            a: extend3(c as int / 4096),
        }
    } else {
        Rgba {
            r: extend5((c as int / 1024) % 32),
            g: extend5((c as int / 32) % 32),
            b: extend5(c as int % 32),
            a: 255,
        }
    }
}

/// A palette entry of a 16-bit colour format: 1 selects RGB565, 2 RGB5A3.
pub open spec fn palette_colour(palette_format: u32, entry: u16) -> Rgba {
    if palette_format == 1 {
        rgb565(entry)
    } else {
        rgb5a3(entry)
    }
}

/// Where the tile that holds pixel (x, y) starts: tiles are stored row by row.
pub open spec fn tiled_offset(f: TextureFormat, w: nat, x: nat, y: nat) -> nat {
    tile_bytes(f) * (tiles_across(f, w) * (y / tile_height(f)) + x / tile_width(f))
}

/// The place of pixel (x, y) within its tile, counted row by row.
pub open spec fn inner_index(f: TextureFormat, x: nat, y: nat) -> nat {
    tile_width(f) * (y % tile_height(f)) + x % tile_width(f)
}

/// A 4-bit value: the high nibble for even columns, the low one for odd columns.
pub open spec fn nibble(byte: u8, x: nat) -> int {
    if x % 2 == 0 {
        byte as int / 16
    } else {
        byte as int % 16
    }
}

pub open spec fn grey(i: u8, a: u8) -> Rgba {
    Rgba { r: i, g: i, b: i, a }
}

pub open spec fn mix2(a: u8, b: u8) -> u8 {
    ((2 * a + b) / 3) as u8
}

pub open spec fn mix1(a: u8, b: u8) -> u8 {
    ((a + b) / 2) as u8
}

/// Entry `i` of a compressed sub-block's four-colour palette.
pub open spec fn cmpr_colour(ca: u16, cb: u16, i: int) -> Rgba {
    let a = rgb565(ca);
    let b = rgb565(cb);
    if i == 0 {
        a
    } else if i == 1 {
        b
    } else if ca > cb {
        if i == 2 {
            Rgba { r: mix2(a.r, b.r), g: mix2(a.g, b.g), b: mix2(a.b, b.b), a: mix2(a.a, b.a) }
        } else {
            Rgba { r: mix2(b.r, a.r), g: mix2(b.g, a.g), b: mix2(b.b, a.b), a: mix2(b.a, a.a) }
        }
    } else if i == 2 {
        Rgba { r: mix1(a.r, b.r), g: mix1(a.g, b.g), b: mix1(a.b, b.b), a: mix1(a.a, b.a) }
    } else {
        Rgba { r: 0, g: 0, b: 0, a: 0 }
    }
}

/// The colour of pixel (x, y) of a `w`-pixel-wide image in format `f`, whose
/// payload (palette header and palette included) is `d`.
pub open spec fn texel(f: TextureFormat, d: Seq<u8>, w: nat, x: nat, y: nat) -> Rgba {
    let base = pixel_base(f) as int;
    let t = base + tiled_offset(f, w, x, y);
    let k = inner_index(f, x, y) as int;
    match f {
        TextureFormat::I4 => {
            let i = extend4(nibble(d[t + k / 2], x));
            grey(i, 255)
        },
        TextureFormat::I8 => grey(d[t + k], 255),
        TextureFormat::Ia4 => grey(extend4(d[t + k] as int / 16), extend4(d[t + k] as int % 16)),
        TextureFormat::Ia8 => grey(d[t + 2 * k], d[t + 2 * k + 1]),
        TextureFormat::C4 => {
            let idx = nibble(d[t + k / 2], x);
            palette_colour(be_u32(d), be_u16(d.skip(8 + 2 * idx)))
        },
        TextureFormat::C8 => palette_colour(be_u32(d), be_u16(d.skip(8 + 2 * d[t + k]))),
        TextureFormat::Rgb565 => rgb565(be_u16(d.skip(t + 2 * k))),
        TextureFormat::Rgb5a3 => rgb5a3(be_u16(d.skip(t + 2 * k))),
        TextureFormat::Rgba8 => Rgba {
            r: d[t + 2 * k + 1],
            g: d[t + 2 * k + 32],
            b: d[t + 2 * k + 33],
            a: d[t + 2 * k],
        },
        TextureFormat::Cmpr => {
            let sub = ((y / 4) % 2) * 2 + (x / 4) % 2;
            let blk = t + 8 * sub;
            let byte = d[blk + 4 + (y % 4) as int];
            let i = ((byte as u32) >> ((6 - 2 * (x % 4)) as u32)) & 3;
            cmpr_colour(be_u16(d.skip(blk)), be_u16(d.skip(blk + 2)), i as int)
        },
    }
}

pub open spec fn channel(c: Rgba, i: int) -> u8 {
    if i == 0 {
        c.r
    } else if i == 1 {
        c.g
    } else if i == 2 {
        c.b
    } else {
        c.a
    }
}

/// The RGBA bytes of the whole image, row by row, vertically mirrored
/// relative to storage: output row y holds stored row h - 1 - y.
pub open spec fn raster_bytes(f: TextureFormat, d: Seq<u8>, w: nat, h: nat) -> Seq<u8> {
    Seq::new(
        4 * (w * h),
        |i: int| channel(texel(f, d, w, ((i / 4) % w as int) as nat, (h - 1 - (i / 4) / w as int) as nat), i % 4),
    )
}

/// Why a payload cannot be decoded, if it cannot.
pub open spec fn texture_error(f: TextureFormat, d: Seq<u8>, w: nat, h: nat) -> Option<Error> {
    let palette_shape_ok = match f {
        TextureFormat::C4 => be_u16(d.skip(4)) == 1 && be_u16(d.skip(6)) == 16,
        _ => be_u16(d.skip(4)) == 256 && be_u16(d.skip(6)) == 1,
    };
    let shape_value = if be_u16(d.skip(4)) != (if f == TextureFormat::C4 { 1u16 } else { 256u16 }) {
        be_u16(d.skip(4))
    } else {
        be_u16(d.skip(6))
    };
    if f == TextureFormat::C4 || f == TextureFormat::C8 {
        if d.len() < 4 {
            Some(Error::Truncated)
        } else if be_u32(d) != 1 && be_u32(d) != 2 {
            Some(Error::UnsupportedFormat)
        } else if d.len() < 8 {
            Some(Error::Truncated)
        } else if !palette_shape_ok {
            Some(Error::UnexpectedFormat { context: Field::PaletteShape, value: shape_value as u32 })
        } else if d.len() < payload_len(f, w, h) {
            Some(Error::Truncated)
        } else {
            None
        }
    } else if d.len() < payload_len(f, w, h) {
        Some(Error::Truncated)
    } else {
        None
    }
}

/// Widening a channel repeats its high bits in the bits it leaves free: the
/// arithmetic forms used here equal the shift-and-or forms of the format.
pub proof fn lemma_channel_extension(x: u8)
    ensures
        x < 8 ==> extend3(x as int) == ((x << 5u8) | (x << 2u8) | (x >> 1u8)),
        x < 16 ==> extend4(x as int) == ((x << 4u8) | x),
        x < 32 ==> extend5(x as int) == ((x << 3u8) | (x >> 2u8)),
        x < 64 ==> extend6(x as int) == ((x << 2u8) | (x >> 4u8)),
{
    if x < 8 {
        assert(((x << 5u8) | (x << 2u8) | (x >> 1u8)) == x * 32 + x * 4 + x / 2) by (bit_vector)
            requires x < 8;
    }
    if x < 16 {
        assert(((x << 4u8) | x) == x * 16 + x) by (bit_vector)
            requires x < 16;
    }
    if x < 32 {
        assert(((x << 3u8) | (x >> 2u8)) == x * 8 + x / 4) by (bit_vector)
            requires x < 32;
    }
    if x < 64 {
        assert(((x << 2u8) | (x >> 4u8)) == x * 4 + x / 16) by (bit_vector)
            requires x < 64;
    }
}

proof fn lemma_tile_bound(bw: nat, bh: nat, cx: nat, cy: nat, tb: nat, inner: nat)
    requires
        cx < bw,
        cy < bh,
        inner < tb,
    ensures
        tb * (bw * cy + cx) + inner < tb * (bw * bh),
        tb * (bw * cy + cx) + tb <= tb * (bw * bh),
{
    assert(bw * cy + cx < bw * bh) by (nonlinear_arith)
        requires cx < bw, cy < bh;
    assert(tb * (bw * cy + cx) + tb <= tb * (bw * bh)) by (nonlinear_arith)
        requires bw * cy + cx < bw * bh;
}

proof fn lemma_ceil_div(v: nat, t: nat, q: nat)
    requires
        t > 0,
        q < v,
    ensures
        q / t < (v + t - 1) as nat / t,
{
    assert(q / t < (v + t - 1) as nat / t) by (nonlinear_arith)
        requires t > 0, q < v;
}

/// Where pixel (x, y)'s bytes lie: the pixel's byte within the payload and
/// the bytes after it that the format reads stay inside `payload_len`.
proof fn lemma_texel_in_bounds(f: TextureFormat, w: nat, h: nat, x: nat, y: nat)
    requires
        x < w,
        y < h,
    ensures
        pixel_base(f) + tiled_offset(f, w, x, y) + tile_bytes(f) <= payload_len(f, w, h),
        inner_index(f, x, y) < tile_width(f) * tile_height(f),
{
    let tw = tile_width(f);
    let th = tile_height(f);
    lemma_ceil_div(w, tw, x);
    lemma_ceil_div(h, th, y);
    lemma_tile_bound(tiles_across(f, w), tiles_down(f, h), x / tw, y / th, tile_bytes(f), 0);
    assert(tw * (y % th) + x % tw < tw * th) by (nonlinear_arith)
        requires x % tw < tw, y % th < th, tw > 0, th > 0;
}

fn extend3_exec(x: u8) -> (r: u8)
    requires
        x < 8,
    ensures
        r == extend3(x as int),
{
    x * 32 + x * 4 + x / 2
}

fn extend4_exec(x: u8) -> (r: u8)
    requires
        x < 16,
    ensures
        r == extend4(x as int),
{
    x * 16 + x
}

fn extend5_exec(x: u8) -> (r: u8)
    requires
        x < 32,
    ensures
        r == extend5(x as int),
{
    x * 8 + x / 4
}

fn extend6_exec(x: u8) -> (r: u8)
    requires
        x < 64,
    ensures
        r == extend6(x as int),
{
    x * 4 + x / 16
}

/// Decodes a 16-bit RGB565 colour.
pub fn decode_rgb565(c: u16) -> (r: Rgba)
    ensures
        r == rgb565(c),
{
    Rgba {
        r: extend5_exec((c / 2048) as u8),
        g: extend6_exec(((c / 32) % 64) as u8),
        b: extend5_exec((c % 32) as u8),
        a: 255,
    }
}

/// Decodes a 16-bit RGB5A3 colour: the top bit selects opaque RGB555 or
/// 3-bit alpha with RGB444.
pub fn decode_rgb5a3(c: u16) -> (r: Rgba)
    ensures
        r == rgb5a3(c),
{
    if c < 0x8000 {
        Rgba {
            r: extend4_exec(((c / 256) % 16) as u8),
            g: extend4_exec(((c / 16) % 16) as u8),
            b: extend4_exec((c % 16) as u8),
            a: extend3_exec((c / 4096) as u8),
        }
    } else {
        Rgba {
            r: extend5_exec(((c / 1024) % 32) as u8),
            g: extend5_exec(((c / 32) % 32) as u8),
            b: extend5_exec((c % 32) as u8),
            a: 255,
        }
    }
}

/// Decodes entry `index` of a palette of 16-bit colours; palette format 1
/// is RGB565, 2 is RGB5A3, and any other is not supported.
pub fn palette_fetcher(palette_format: u32, palette: &[u8], index: usize) -> (r: Result<Rgba, Error>)
    requires
        2 * index + 2 <= palette@.len(),
    ensures
        palette_format == 1 || palette_format == 2 ==> r == Ok::<Rgba, Error>(
            palette_colour(palette_format, be_u16(palette@.skip(2 * index))),
        ),
        palette_format != 1 && palette_format != 2 ==> r == Err::<Rgba, Error>(Error::UnsupportedFormat),
{
    if palette_format != 1 && palette_format != 2 {
        return Err(Error::UnsupportedFormat);
    }
    let len = palette.len();
    assert(2 * index + 2 <= len);
    let e = (palette[2 * index] as u16) * 256 + palette[2 * index + 1] as u16;
    if palette_format == 1 {
        Ok(decode_rgb565(e))
    } else {
        Ok(decode_rgb5a3(e))
    }
}

fn tile_width_of(f: TextureFormat) -> (r: usize)
    ensures
        r == tile_width(f),
{
    match f {
        TextureFormat::Ia8 | TextureFormat::Rgb565 | TextureFormat::Rgb5a3 | TextureFormat::Rgba8 => 4,
        _ => 8,
    }
}

fn tile_height_of(f: TextureFormat) -> (r: usize)
    ensures
        r == tile_height(f),
{
    match f {
        TextureFormat::I4 | TextureFormat::C4 | TextureFormat::Cmpr => 8,
        _ => 4,
    }
}

fn tile_bytes_of(f: TextureFormat) -> (r: usize)
    ensures
        r == tile_bytes(f),
{
    match f {
        TextureFormat::Rgba8 => 64,
        _ => 32,
    }
}

fn pixel_base_of(f: TextureFormat) -> (r: usize)
    ensures
        r == pixel_base(f),
{
    match f {
        TextureFormat::C4 => 40,
        TextureFormat::C8 => 520,
        _ => 0,
    }
}

/// The payload size as a 64-bit number, which cannot overflow for 16-bit sides.
fn payload_len_of(f: TextureFormat, w: u16, h: u16) -> (r: u64)
    ensures
        r == payload_len(f, w as nat, h as nat),
{
    let tw = tile_width_of(f) as u64;
    let th = tile_height_of(f) as u64;
    let bw = (w as u64 + tw - 1) / tw;
    let bh = (h as u64 + th - 1) / th;
    assert(bw <= 65535 && bh <= 65535);
    assert(bw * bh <= 65535 * 65535) by (nonlinear_arith)
        requires bw <= 65535, bh <= 65535;
    let tb = tile_bytes_of(f) as u64;
    assert(tb * (bw * bh) <= 64 * (65535 * 65535)) by (nonlinear_arith)
        requires tb <= 64, bw * bh <= 65535 * 65535;
    pixel_base_of(f) as u64 + tb * (bw * bh)
}

fn mix2_exec(a: u8, b: u8) -> (r: u8)
    ensures
        r == mix2(a, b),
{
    ((2 * a as u16 + b as u16) / 3) as u8
}

fn mix1_exec(a: u8, b: u8) -> (r: u8)
    ensures
        r == mix1(a, b),
{
    ((a as u16 + b as u16) / 2) as u8
}

fn cmpr_colour_exec(ca: u16, cb: u16, i: u32) -> (r: Rgba)
    ensures
        r == cmpr_colour(ca, cb, i as int),
{
    let a = decode_rgb565(ca);
    let b = decode_rgb565(cb);
    if i == 0 {
        a
    } else if i == 1 {
        b
    } else if ca > cb {
        if i == 2 {
            Rgba { r: mix2_exec(a.r, b.r), g: mix2_exec(a.g, b.g), b: mix2_exec(a.b, b.b), a: mix2_exec(a.a, b.a) }
        } else {
            Rgba { r: mix2_exec(b.r, a.r), g: mix2_exec(b.g, a.g), b: mix2_exec(b.b, a.b), a: mix2_exec(b.a, a.a) }
        }
    } else if i == 2 {
        Rgba { r: mix1_exec(a.r, b.r), g: mix1_exec(a.g, b.g), b: mix1_exec(a.b, b.b), a: mix1_exec(a.a, b.a) }
    } else {
        Rgba { r: 0, g: 0, b: 0, a: 0 }
    }
}


fn nibble_exec(byte: u8, x: usize) -> (r: u8)
    ensures
        r as int == nibble(byte, x as nat),
        r < 16,
{
    if x % 2 == 0 {
        byte / 16
    } else {
        byte % 16
    }
}

/// The colour of one pixel, read from its place in the tiled payload.
fn texel_exec(f: TextureFormat, d: &[u8], w: u16, h: u16, x: usize, y: usize) -> (r: Rgba)
    requires
        x < w,
        y < h,
        d@.len() >= payload_len(f, w as nat, h as nat),
        texture_error(f, d@, w as nat, h as nat) is None,
    ensures
        r == texel(f, d@, w as nat, x as nat, y as nat),
{
    proof {
        lemma_texel_in_bounds(f, w as nat, h as nat, x as nat, y as nat);
    }
    let len = d.len();
    let tw = tile_width_of(f);
    let th = tile_height_of(f);
    let tb = tile_bytes_of(f);
    let bw = (w as usize + tw - 1) / tw;
    let ghost cs = bw as int * (y / th) as int + (x / tw) as int;
    assert(cs <= tb * cs) by (nonlinear_arith)
        requires tb >= 32, cs >= 0;
    assert(bw as int * (y / th) as int <= cs);
    let cell = bw * (y / th) + x / tw;
    assert(cell <= tb * cell) by (nonlinear_arith)
        requires tb >= 32;
    let t = pixel_base_of(f) + tb * cell;
    let k = tw * (y % th) + x % tw;
    assert(t + tb <= len);
    assert(k < tw * th);
    match f {
        TextureFormat::I4 => {
            let i = extend4_exec(nibble_exec(d[t + k / 2], x));
            Rgba { r: i, g: i, b: i, a: 255 }
        },
        TextureFormat::I8 => {
            let i = d[t + k];
            Rgba { r: i, g: i, b: i, a: 255 }
        },
        TextureFormat::Ia4 => {
            let e = d[t + k];
            let i = extend4_exec(e / 16);
            Rgba { r: i, g: i, b: i, a: extend4_exec(e % 16) }
        },
        TextureFormat::Ia8 => {
            let i = d[t + 2 * k];
            Rgba { r: i, g: i, b: i, a: d[t + 2 * k + 1] }
        },
        TextureFormat::C4 => {
            let idx = nibble_exec(d[t + k / 2], x) as usize;
            match palette_fetcher(u32_at(d, 0), &d[8..40], idx) {
                Ok(c) => c,
                Err(_) => Rgba { r: 0, g: 0, b: 0, a: 0 },
            }
        },
        TextureFormat::C8 => {
            let idx = d[t + k] as usize;
            match palette_fetcher(u32_at(d, 0), &d[8..520], idx) {
                Ok(c) => c,
                Err(_) => Rgba { r: 0, g: 0, b: 0, a: 0 },
            }
        },
        TextureFormat::Rgb565 => decode_rgb565(u16_at(d, t + 2 * k)),
        TextureFormat::Rgb5a3 => decode_rgb5a3(u16_at(d, t + 2 * k)),
        TextureFormat::Rgba8 => {
            let o = t + 2 * k;
            Rgba { r: d[o + 1], g: d[o + 32], b: d[o + 33], a: d[o] }
        },
        TextureFormat::Cmpr => {
            let sub = ((y / 4) % 2) * 2 + (x / 4) % 2;
            let blk = t + 8 * sub;
            let byte = d[blk + 4 + y % 4];
            let i = ((byte as u32) >> ((6 - 2 * (x % 4)) as u32)) & 3;
            cmpr_colour_exec(u16_at(d, blk), u16_at(d, blk + 2), i)
        },
    }
}


fn check_payload(f: TextureFormat, w: u16, h: u16, d: &[u8]) -> (r: Result<(), Error>)
    ensures
        match texture_error(f, d@, w as nat, h as nat) {
            Some(e) => r == Err::<(), Error>(e),
            None => r is Ok,
        },
{
    if f == TextureFormat::C4 || f == TextureFormat::C8 {
        if d.len() < 4 {
            return Err(Error::Truncated);
        }
        let pf = u32_at(d, 0);
        if pf != 1 && pf != 2 {
            return Err(Error::UnsupportedFormat);
        }
        if d.len() < 8 {
            return Err(Error::Truncated);
        }
        let first = u16_at(d, 4);
        let second = u16_at(d, 6);
        let (want_first, want_second): (u16, u16) = if f == TextureFormat::C4 {
            (1, 16)
        } else {
            (256, 1)
        };
        if first != want_first {
            return Err(Error::UnexpectedFormat { context: Field::PaletteShape, value: first as u32 });
        }
        if second != want_second {
            return Err(Error::UnexpectedFormat { context: Field::PaletteShape, value: second as u32 });
        }
    }
    if (d.len() as u64) < payload_len_of(f, w, h) {
        return Err(Error::Truncated);
    }
    Ok(())
}

fn format_from_tag(tag: u32) -> (r: Option<TextureFormat>)
    ensures
        r == format_of(tag),
{
    if tag == 0 {
        Some(TextureFormat::I4)
    } else if tag == 1 {
        Some(TextureFormat::I8)
    } else if tag == 2 {
        Some(TextureFormat::Ia4)
    } else if tag == 3 {
        Some(TextureFormat::Ia8)
    } else if tag == 4 {
        Some(TextureFormat::C4)
    } else if tag == 5 {
        Some(TextureFormat::C8)
    } else if tag == 7 {
        Some(TextureFormat::Rgb565)
    } else if tag == 8 {
        Some(TextureFormat::Rgb5a3)
    } else if tag == 9 {
        Some(TextureFormat::Rgba8)
    } else if tag == 10 {
        Some(TextureFormat::Cmpr)
    } else {
        None
    }
}

/// Decodes a texture resource: a 12-byte header (format tag, 16-bit width
/// and height, mipmap count) followed by the pixel payload of the largest image.
pub fn dump(data: &[u8]) -> (r: Result<Raster, Error>)
    ensures
        data@.len() < 12 ==> r is Err && r->Err_0 == Error::Truncated,
        data@.len() >= 12 ==> {
            let w = be_u16(data@.skip(4));
            let h = be_u16(data@.skip(6));
            let payload = data@.skip(12);
            match format_of(be_u32(data@)) {
                None => r is Err && r->Err_0 == Error::UnsupportedFormat,
                Some(f) => match texture_error(f, payload, w as nat, h as nat) {
                    Some(e) => r is Err && r->Err_0 == e,
                    None => r is Ok && r->Ok_0.width == w && r->Ok_0.height == h
                        && r->Ok_0.rgba@ == raster_bytes(f, payload, w as nat, h as nat),
                },
            }
        },
{
    if data.len() < 12 {
        return Err(Error::Truncated);
    }
    let tag = u32_at(data, 0);
    let width = u16_at(data, 4);
    let height = u16_at(data, 6);
    let format = match format_from_tag(tag) {
        Some(f) => f,
        None => return Err(Error::UnsupportedFormat),
    };
    let payload = &data[12..data.len()];
    assert(payload@ =~= data@.skip(12));
    decode(format, width, height, payload)
}

/// The bytes of pixel (x, y) follow those of the pixels before it in row order.
proof fn lemma_pixel_slot(f: TextureFormat, d: Seq<u8>, w: nat, h: nat, x: nat, y: nat)
    requires
        x < w,
        y < h,
    ensures
        ({
            let full = raster_bytes(f, d, w, h);
            let c = texel(f, d, w, x, (h - 1 - y) as nat);
            full.take(4 * (y * w + x + 1) as int) == full.take(4 * (y * w + x) as int) + seq![c.r, c.g, c.b, c.a]
        }),
{
    let full = raster_bytes(f, d, w, h);
    let c = texel(f, d, w, x, (h - 1 - y) as nat);
    let p = (y * w + x) as int;
    lemma_fundamental_div_mod_converse(p, w as int, y as int, x as int);
    assert((y + 1) * w == y * w + w) by (nonlinear_arith);
    assert(y + 1 <= h);
    assert((y + 1) * w <= h * w) by (nonlinear_arith)
        requires y + 1 <= h;
    assert(w * h == h * w) by (nonlinear_arith);
    assert(p < w * h);
    assert(full.len() == 4 * (w * h));
    assert((4 * p) / 4 == p && (4 * p) % 4 == 0);
    assert((4 * p + 1) / 4 == p && (4 * p + 1) % 4 == 1);
    assert((4 * p + 2) / 4 == p && (4 * p + 2) % 4 == 2);
    assert((4 * p + 3) / 4 == p && (4 * p + 3) % 4 == 3);
    assert(full[4 * p] == c.r);
    assert(full[4 * p + 1] == c.g);
    assert(full[4 * p + 2] == c.b);
    assert(full[4 * p + 3] == c.a);
    assert(full.take(4 * (p + 1)) =~= full.take(4 * p) + seq![c.r, c.g, c.b, c.a]);
}

/// Output byte `c` of pixel `x` in output row `yo` is that channel of the
/// stored pixel in row `h - 1 - yo`.
proof fn lemma_raster_at(f: TextureFormat, d: Seq<u8>, w: nat, h: nat, x: nat, yo: nat, c: int)
    requires
        x < w,
        yo < h,
        0 <= c < 4,
    ensures
        4 * (yo * w + x) + c < raster_bytes(f, d, w, h).len(),
        raster_bytes(f, d, w, h)[4 * (yo * w + x) + c] == channel(texel(f, d, w, x, (h - 1 - yo) as nat), c),
{
    let p = (yo * w + x) as int;
    lemma_fundamental_div_mod_converse(p, w as int, yo as int, x as int);
    assert((yo + 1) * w == yo * w + w) by (nonlinear_arith);
    assert((yo + 1) * w <= h * w) by (nonlinear_arith)
        requires yo + 1 <= h;
    assert(w * h == h * w) by (nonlinear_arith);
    assert((4 * p + c) / 4 == p && (4 * p + c) % 4 == c);
}

/// A hand-encoded 8-bit intensity image decodes back: the stored pixel
/// (x, y) whose tiled byte holds `v` comes out in output row h - 1 - y as
/// `v` in red, green and blue with full alpha.
pub proof fn lemma_i8_round_trip(d: Seq<u8>, w: nat, h: nat, x: nat, y: nat, v: u8)
    requires
        x < w,
        y < h,
        d[(tiled_offset(TextureFormat::I8, w, x, y) + inner_index(TextureFormat::I8, x, y)) as int] == v,
    ensures
        ({
            let o = 4 * ((h - 1 - y) * w + x) as int;
            raster_bytes(TextureFormat::I8, d, w, h).subrange(o, o + 4) == seq![v, v, v, 255u8]
        }),
{
    let yo = (h - 1 - y) as nat;
    let r = raster_bytes(TextureFormat::I8, d, w, h);
    let o = (4 * (yo * w + x)) as int;
    lemma_raster_at(TextureFormat::I8, d, w, h, x, yo, 0);
    lemma_raster_at(TextureFormat::I8, d, w, h, x, yo, 1);
    lemma_raster_at(TextureFormat::I8, d, w, h, x, yo, 2);
    lemma_raster_at(TextureFormat::I8, d, w, h, x, yo, 3);
    assert(r.subrange(o, o + 4) =~= seq![v, v, v, 255u8]);
}

/// A hand-encoded 4-bit intensity image decodes back: the stored pixel
/// (x, y) whose nibble (the high one for even columns) holds `n` comes out
/// in output row h - 1 - y as `n` widened to 8 bits in red, green and blue
/// with full alpha.
pub proof fn lemma_i4_round_trip(d: Seq<u8>, w: nat, h: nat, x: nat, y: nat, n: u8)
    requires
        x < w,
        y < h,
        n < 16,
        nibble(d[(tiled_offset(TextureFormat::I4, w, x, y) + inner_index(TextureFormat::I4, x, y) / 2) as int], x) == n,
    ensures
        ({
            let o = 4 * ((h - 1 - y) * w + x) as int;
            let i = (n * 17) as u8;
            raster_bytes(TextureFormat::I4, d, w, h).subrange(o, o + 4) == seq![i, i, i, 255u8]
        }),
{
    let yo = (h - 1 - y) as nat;
    let r = raster_bytes(TextureFormat::I4, d, w, h);
    let o = (4 * (yo * w + x)) as int;
    lemma_raster_at(TextureFormat::I4, d, w, h, x, yo, 0);
    lemma_raster_at(TextureFormat::I4, d, w, h, x, yo, 1);
    lemma_raster_at(TextureFormat::I4, d, w, h, x, yo, 2);
    lemma_raster_at(TextureFormat::I4, d, w, h, x, yo, 3);
    let i = (n * 17) as u8;
    assert(r.subrange(o, o + 4) =~= seq![i, i, i, 255u8]);
}

/// Decodes a tiled pixel payload of `width` by `height` pixels into RGBA.
pub fn decode(format: TextureFormat, width: u16, height: u16, data: &[u8]) -> (r: Result<Raster, Error>)
    ensures
        match texture_error(format, data@, width as nat, height as nat) {
            Some(e) => r is Err && r->Err_0 == e,
            None => r is Ok && r->Ok_0.width == width && r->Ok_0.height == height
                && r->Ok_0.rgba@ == raster_bytes(format, data@, width as nat, height as nat),
        },
{
    check_payload(format, width, height, data)?;
    let w = width as usize;
    let h = height as usize;
    let ghost full = raster_bytes(format, data@, w as nat, h as nat);
    let mut rgba: Vec<u8> = Vec::new();
    let mut y: usize = 0;
    while y < h
        invariant
            y <= h,
            w == width,
            h == height,
            data@.len() >= payload_len(format, w as nat, h as nat),
            texture_error(format, data@, w as nat, h as nat) is None,
            full == raster_bytes(format, data@, w as nat, h as nat),
            rgba@ == full.take(4 * (y * w)),
        decreases h - y,
    {
        assert((y + 1) * w <= h * w) by (nonlinear_arith)
            requires y < h;
        let mut x: usize = 0;
        while x < w
            invariant
                x <= w,
                y < h,
                w == width,
                h == height,
                (y + 1) * w <= h * w,
                data@.len() >= payload_len(format, w as nat, h as nat),
                texture_error(format, data@, w as nat, h as nat) is None,
                full == raster_bytes(format, data@, w as nat, h as nat),
                rgba@ == full.take(4 * (y * w + x)),
            decreases w - x,
        {
            let c = texel_exec(format, data, width, height, x, h - 1 - y);
            proof {
                lemma_pixel_slot(format, data@, w as nat, h as nat, x as nat, y as nat);
            }
            let ghost before = rgba@;
            rgba.push(c.r);
            rgba.push(c.g);
            rgba.push(c.b);
            rgba.push(c.a);
            assert(rgba@ =~= before + seq![c.r, c.g, c.b, c.a]);
            x = x + 1;
        }
        assert((y + 1) * w == y * w + w) by (nonlinear_arith);
        y = y + 1;
    }
    assert(h * w == w * h) by (nonlinear_arith);
    assert(rgba@ =~= full);
    Ok(Raster { width: w, height: h, rgba })
}

} // verus!
