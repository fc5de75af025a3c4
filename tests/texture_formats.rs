use prime_assets::error::{Error, Field};
use prime_assets::texture::{decode, decode_rgb565, decode_rgb5a3, dump, palette_fetcher, Rgba, TextureFormat};

fn rgba(r: u8, g: u8, b: u8, a: u8) -> [u8; 4] {
    [r, g, b, a]
}

/// Byte offset of the tile holding (x, y) plus the pixel's place in it.
fn place(tw: usize, th: usize, tile_bytes: usize, w: usize, x: usize, y: usize) -> (usize, usize) {
    let tiles_across = (w + tw - 1) / tw;
    let tile = tile_bytes * (tiles_across * (y / th) + x / tw);
    (tile, tw * (y % th) + x % tw)
}

fn payload_size(tw: usize, th: usize, tile_bytes: usize, w: usize, h: usize) -> usize {
    tile_bytes * ((w + tw - 1) / tw) * ((h + th - 1) / th)
}

fn pixel(raster: &[u8], w: usize, x: usize, y: usize) -> [u8; 4] {
    let o = 4 * (y * w + x);
    [raster[o], raster[o + 1], raster[o + 2], raster[o + 3]]
}

#[test]
fn i4_round_trip() {
    let (w, h) = (12, 10);
    let mut data = vec![0u8; payload_size(8, 8, 32, w, h)];
    for y in 0..h {
        for x in 0..w {
            let v = ((x + 3 * y) % 16) as u8;
            let (t, k) = place(8, 8, 32, w, x, y);
            if x % 2 == 0 {
                data[t + k / 2] |= v << 4;
            } else {
                data[t + k / 2] |= v;
            }
        }
    }
    let r = decode(TextureFormat::I4, w as u16, h as u16, &data).unwrap();
    assert_eq!(r.rgba.len(), 4 * w * h);
    for y in 0..h {
        for x in 0..w {
            let v = ((x + 3 * y) % 16) as u8 * 17;
            assert_eq!(pixel(&r.rgba, w, x, h - 1 - y), rgba(v, v, v, 255));
        }
    }
}

#[test]
fn i8_round_trip() {
    let (w, h) = (9, 5);
    let mut data = vec![0u8; payload_size(8, 4, 32, w, h)];
    for y in 0..h {
        for x in 0..w {
            let (t, k) = place(8, 4, 32, w, x, y);
            data[t + k] = (x * 20 + y) as u8;
        }
    }
    let r = decode(TextureFormat::I8, w as u16, h as u16, &data).unwrap();
    for y in 0..h {
        for x in 0..w {
            let v = (x * 20 + y) as u8;
            assert_eq!(pixel(&r.rgba, w, x, h - 1 - y), rgba(v, v, v, 255));
        }
    }
}

#[test]
fn ia4_round_trip() {
    let (w, h) = (8, 4);
    let mut data = vec![0u8; payload_size(8, 4, 32, w, h)];
    for y in 0..h {
        for x in 0..w {
            let (t, k) = place(8, 4, 32, w, x, y);
            data[t + k] = ((x as u8) << 4) | (y as u8 + 2);
        }
    }
    let r = decode(TextureFormat::Ia4, w as u16, h as u16, &data).unwrap();
    for y in 0..h {
        for x in 0..w {
            let i = x as u8 * 17;
            let a = (y as u8 + 2) * 17;
            assert_eq!(pixel(&r.rgba, w, x, h - 1 - y), rgba(i, i, i, a));
        }
    }
}

#[test]
fn ia8_round_trip() {
    let (w, h) = (6, 6);
    let mut data = vec![0u8; payload_size(4, 4, 32, w, h)];
    for y in 0..h {
        for x in 0..w {
            let (t, k) = place(4, 4, 32, w, x, y);
            data[t + 2 * k] = (10 * x + y) as u8;
            data[t + 2 * k + 1] = (200 - x - y) as u8;
        }
    }
    let r = decode(TextureFormat::Ia8, w as u16, h as u16, &data).unwrap();
    for y in 0..h {
        for x in 0..w {
            let i = (10 * x + y) as u8;
            assert_eq!(pixel(&r.rgba, w, x, h - 1 - y), rgba(i, i, i, (200 - x - y) as u8));
        }
    }
}

const RGB5A3_SAMPLES: [(u16, [u8; 4]); 5] = [
    (0x8000, [0, 0, 0, 255]),
    (0xffff, [255, 255, 255, 255]),
    (0x7f00, [255, 0, 0, 255]),
    (0x0000, [0, 0, 0, 0]),
    (0x3abc, [170, 187, 204, 109]),
];

const RGB565_SAMPLES: [(u16, [u8; 4]); 4] = [
    (0xf800, [255, 0, 0, 255]),
    (0x07e0, [0, 255, 0, 255]),
    (0x001f, [0, 0, 255, 255]),
    (0x8410, [132, 130, 132, 255]),
];

#[test]
fn colour_channel_extension_is_exact() {
    for (c, want) in RGB5A3_SAMPLES {
        let got = decode_rgb5a3(c);
        assert_eq!([got.r, got.g, got.b, got.a], want);
    }
    for (c, want) in RGB565_SAMPLES {
        let got = decode_rgb565(c);
        assert_eq!([got.r, got.g, got.b, got.a], want);
    }
    assert_eq!(decode_rgb565(0x0841), Rgba { r: 8, g: 8, b: 8, a: 255 });
}

#[test]
fn c4_round_trip() {
    let (w, h) = (8, 8);
    let mut data = vec![0, 0, 0, 2, 0, 1, 0, 16];
    let mut palette = vec![0u8; 32];
    for (i, (c, _)) in RGB5A3_SAMPLES.iter().enumerate() {
        palette[2 * i] = (c >> 8) as u8;
        palette[2 * i + 1] = *c as u8;
    }
    data.extend_from_slice(&palette);
    let mut pixels = vec![0u8; payload_size(8, 8, 32, w, h)];
    for y in 0..h {
        for x in 0..w {
            let idx = ((x + y) % RGB5A3_SAMPLES.len()) as u8;
            let (t, k) = place(8, 8, 32, w, x, y);
            if x % 2 == 0 {
                pixels[t + k / 2] |= idx << 4;
            } else {
                pixels[t + k / 2] |= idx;
            }
        }
    }
    data.extend_from_slice(&pixels);
    let r = decode(TextureFormat::C4, w as u16, h as u16, &data).unwrap();
    for y in 0..h {
        for x in 0..w {
            assert_eq!(pixel(&r.rgba, w, x, h - 1 - y), RGB5A3_SAMPLES[(x + y) % RGB5A3_SAMPLES.len()].1);
        }
    }
}

#[test]
fn c8_round_trip() {
    let (w, h) = (10, 4);
    let mut data = vec![0, 0, 0, 1, 1, 0, 0, 1];
    let mut palette = vec![0u8; 512];
    for (i, (c, _)) in RGB565_SAMPLES.iter().enumerate() {
        let slot = 60 * i;
        palette[2 * slot] = (c >> 8) as u8;
        palette[2 * slot + 1] = *c as u8;
    }
    data.extend_from_slice(&palette);
    let mut pixels = vec![0u8; payload_size(8, 4, 32, w, h)];
    for y in 0..h {
        for x in 0..w {
            let (t, k) = place(8, 4, 32, w, x, y);
            pixels[t + k] = (60 * ((x * y) % 4)) as u8;
        }
    }
    data.extend_from_slice(&pixels);
    let r = decode(TextureFormat::C8, w as u16, h as u16, &data).unwrap();
    for y in 0..h {
        for x in 0..w {
            assert_eq!(pixel(&r.rgba, w, x, h - 1 - y), RGB565_SAMPLES[(x * y) % 4].1);
        }
    }
}

fn direct16(format: TextureFormat, samples: &[(u16, [u8; 4])]) {
    let (w, h) = (5, 7);
    let mut data = vec![0u8; payload_size(4, 4, 32, w, h)];
    for y in 0..h {
        for x in 0..w {
            let (c, _) = samples[(2 * x + y) % samples.len()];
            let (t, k) = place(4, 4, 32, w, x, y);
            data[t + 2 * k] = (c >> 8) as u8;
            data[t + 2 * k + 1] = c as u8;
        }
    }
    let r = decode(format, w as u16, h as u16, &data).unwrap();
    for y in 0..h {
        for x in 0..w {
            assert_eq!(pixel(&r.rgba, w, x, h - 1 - y), samples[(2 * x + y) % samples.len()].1);
        }
    }
}

#[test]
fn rgb565_round_trip() {
    direct16(TextureFormat::Rgb565, &RGB565_SAMPLES);
}

#[test]
fn rgb5a3_round_trip() {
    direct16(TextureFormat::Rgb5a3, &RGB5A3_SAMPLES);
}

#[test]
fn rgba8_round_trip() {
    let (w, h) = (6, 5);
    let mut data = vec![0u8; payload_size(4, 4, 64, w, h)];
    for y in 0..h {
        for x in 0..w {
            let (t, k) = place(4, 4, 64, w, x, y);
            data[t + 2 * k] = (x + 100) as u8;
            data[t + 2 * k + 1] = (y + 1) as u8;
            data[t + 2 * k + 32] = (x * y) as u8;
            data[t + 2 * k + 33] = (250 - x) as u8;
        }
    }
    let r = decode(TextureFormat::Rgba8, w as u16, h as u16, &data).unwrap();
    for y in 0..h {
        for x in 0..w {
            assert_eq!(
                pixel(&r.rgba, w, x, h - 1 - y),
                rgba((y + 1) as u8, (x * y) as u8, (250 - x) as u8, (x + 100) as u8)
            );
        }
    }
}

#[test]
fn cmpr_round_trip_with_both_blends() {
    let (w, h) = (8, 8);
    let mut data = vec![0u8; 32];
    for sub in 0..4 {
        let base = 8 * sub;
        let (ca, cb): (u16, u16) = if sub % 2 == 0 { (0xf800, 0x001f) } else { (0x001f, 0xf800) };
        data[base] = (ca >> 8) as u8;
        data[base + 1] = ca as u8;
        data[base + 2] = (cb >> 8) as u8;
        data[base + 3] = cb as u8;
        for row in 0..4 {
            let mut byte = 0u8;
            for col in 0..4 {
                let idx = ((row + col) % 4) as u8;
                byte |= idx << (2 * (3 - col));
            }
            data[base + 4 + row] = byte;
        }
    }
    let three_step = [
        rgba(255, 0, 0, 255),
        rgba(0, 0, 255, 255),
        rgba(170, 0, 85, 255),
        rgba(85, 0, 170, 255),
    ];
    let two_step = [
        rgba(0, 0, 255, 255),
        rgba(255, 0, 0, 255),
        rgba(127, 0, 127, 255),
        rgba(0, 0, 0, 0),
    ];
    let r = decode(TextureFormat::Cmpr, w as u16, h as u16, &data).unwrap();
    for y in 0..h {
        for x in 0..w {
            let sub = ((y / 4) % 2) * 2 + (x / 4) % 2;
            let idx = (y % 4 + x % 4) % 4;
            let want = if sub % 2 == 0 { three_step[idx] } else { two_step[idx] };
            assert_eq!(pixel(&r.rgba, w, x, h - 1 - y), want, "pixel {x},{y}");
        }
    }
}

#[test]
fn texture_header_is_read() {
    let mut data = vec![0, 0, 0, 1, 0, 2, 0, 1, 0, 0, 0, 1];
    let mut pixels = vec![0u8; 32];
    pixels[0] = 7;
    pixels[1] = 9;
    data.extend_from_slice(&pixels);
    let r = dump(&data).unwrap();
    assert_eq!((r.width, r.height), (2, 1));
    assert_eq!(r.rgba, vec![7, 7, 7, 255, 9, 9, 9, 255]);
}

#[test]
fn unknown_texture_format_is_unsupported() {
    let data = vec![0, 0, 0, 6, 0, 1, 0, 1, 0, 0, 0, 1, 0, 0, 0, 0];
    assert!(matches!(dump(&data), Err(Error::UnsupportedFormat)));
}

#[test]
fn unknown_palette_format_is_unsupported() {
    let data = vec![0, 0, 0, 3, 0, 1, 0, 16];
    assert!(matches!(decode(TextureFormat::C4, 8, 8, &data), Err(Error::UnsupportedFormat)));
}

#[test]
fn wrong_palette_shape_is_rejected() {
    let data = vec![0, 0, 0, 1, 0, 2, 0, 16];
    assert!(matches!(
        decode(TextureFormat::C4, 8, 8, &data),
        Err(Error::UnexpectedFormat { context: Field::PaletteShape, value: 2 })
    ));
}

#[test]
fn short_payload_is_truncated() {
    let data = vec![0u8; 31];
    assert!(matches!(decode(TextureFormat::I8, 8, 4, &data), Err(Error::Truncated)));
    assert!(matches!(dump(&[0, 0, 0]), Err(Error::Truncated)));
}

#[test]
fn empty_image_decodes_to_nothing() {
    let r = decode(TextureFormat::Rgba8, 0, 0, &[]).unwrap();
    assert!(r.rgba.is_empty());
}

#[test]
fn palette_formats_outside_the_two_known_are_rejected() {
    let pal = [0xf8, 0x00, 0x80, 0x00];
    assert_eq!(palette_fetcher(1, &pal, 0).unwrap(), Rgba { r: 255, g: 0, b: 0, a: 255 });
    assert_eq!(palette_fetcher(2, &pal, 1).unwrap(), Rgba { r: 0, g: 0, b: 0, a: 255 });
    assert!(matches!(palette_fetcher(3, &pal, 0), Err(Error::UnsupportedFormat)));
    assert!(matches!(palette_fetcher(0, &pal, 0), Err(Error::UnsupportedFormat)));
}

#[test]
fn output_rows_are_mirrored_relative_to_storage() {
    let mut data = vec![0u8; 32];
    data[0] = 10;
    data[8] = 200;
    let r = decode(TextureFormat::I8, 1, 2, &data).unwrap();
    assert_eq!(r.rgba, vec![200, 200, 200, 255, 10, 10, 10, 255]);
}
