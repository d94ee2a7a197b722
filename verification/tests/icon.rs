use kettle::icon::{adler32, box_blur, crc32, png_bytes, Img};

/// The blur as a plain in-place loop over the buffer, for comparison.
fn reference_blur(mask: &mut Vec<u8>, w: usize, h: usize, radius: usize) {
    if radius == 0 {
        return;
    }
    let mut tmp = vec![0u8; w * h];
    for _ in 0..3 {
        for y in 0..h {
            let row = y * w;
            let mut sum: u32 = 0;
            let span = (radius * 2 + 1) as u32;
            for x in 0..radius.min(w) {
                sum += mask[row + x] as u32;
            }
            for x in 0..w {
                let add = (x + radius).min(w - 1);
                let sub = x as isize - radius as isize - 1;
                sum += mask[row + add] as u32;
                if sub >= 0 {
                    sum -= mask[row + sub as usize] as u32;
                }
                tmp[row + x] = (sum / span).min(255) as u8;
            }
        }
        for x in 0..w {
            let mut sum: u32 = 0;
            let span = (radius * 2 + 1) as u32;
            for y in 0..radius.min(h) {
                sum += tmp[y * w + x] as u32;
            }
            for y in 0..h {
                let add = (y + radius).min(h - 1);
                let sub = y as isize - radius as isize - 1;
                sum += tmp[add * w + x] as u32;
                if sub >= 0 {
                    sum -= tmp[sub as usize * w + x] as u32;
                }
                mask[y * w + x] = (sum / span).min(255) as u8;
            }
        }
    }
}

fn pattern(n: usize, seed: u32) -> Vec<u8> {
    let mut state = seed;
    (0..n)
        .map(|_| {
            state = state.wrapping_mul(1_103_515_245).wrapping_add(12_345);
            (state >> 16) as u8
        })
        .collect()
}

#[test]
fn crc32_matches_the_standard_check_values() {
    assert_eq!(crc32(b"123456789"), 0xCBF4_3926);
    assert_eq!(crc32(b"IEND"), 0xAE42_6082);
    assert_eq!(crc32(b""), 0);
}

#[test]
fn adler32_matches_the_standard_check_values() {
    assert_eq!(adler32(b"Wikipedia"), 0x11E6_0398);
    assert_eq!(adler32(b""), 1);
}

#[test]
fn a_one_pixel_png_has_the_expected_bytes() {
    let png = png_bytes(1, 1, &[255, 0, 0, 255]);
    let mut expected: Vec<u8> = vec![0x89, b'P', b'N', b'G', 0x0D, 0x0A, 0x1A, 0x0A];
    let chunk = |out: &mut Vec<u8>, kind: &[u8; 4], data: &[u8]| {
        out.extend_from_slice(&(data.len() as u32).to_be_bytes());
        let mut body = kind.to_vec();
        body.extend_from_slice(data);
        out.extend_from_slice(&body);
        out.extend_from_slice(&crc32(&body).to_be_bytes());
    };
    chunk(&mut expected, b"IHDR", &[0, 0, 0, 1, 0, 0, 0, 1, 8, 6, 0, 0, 0]);
    let raw = [0u8, 255, 0, 0, 255];
    let mut z = vec![0x78, 0x01, 1, 5, 0, 0xFA, 0xFF];
    z.extend_from_slice(&raw);
    z.extend_from_slice(&adler32(&raw).to_be_bytes());
    chunk(&mut expected, b"IDAT", &z);
    chunk(&mut expected, b"IEND", &[]);
    assert_eq!(png, expected);
}

#[test]
fn large_images_are_split_into_stored_blocks_of_at_most_65535_bytes() {
    let (w, h) = (128, 200);
    let rgba = pattern(w * h * 4, 7);
    let png = png_bytes(w, h, &rgba);
    // IDAT starts after the signature (8) and the IHDR chunk (4 + 4 + 13 + 4).
    let idat = 8 + 25;
    let len = u32::from_be_bytes([png[idat], png[idat + 1], png[idat + 2], png[idat + 3]]) as usize;
    let raw_len = h * (1 + w * 4);
    let blocks = (raw_len + 65534) / 65535;
    assert_eq!(len, 2 + raw_len + 5 * blocks + 4);
    let z = &png[idat + 8..idat + 8 + len];
    assert_eq!(&z[..2], &[0x78, 0x01]);
    // first block: not last, full size
    assert_eq!(&z[2..7], &[0, 0xFF, 0xFF, 0, 0]);
}

#[test]
fn the_blur_matches_the_in_place_loop() {
    for &(w, h, radius) in &[(7, 5, 1), (7, 5, 3), (3, 9, 2), (4, 4, 10), (1, 6, 2), (6, 1, 2), (9, 9, 4)] {
        let input = pattern(w * h, (w * 31 + h * 7 + radius) as u32);
        let mut expected = input.clone();
        reference_blur(&mut expected, w, h, radius);
        let mut got = input.clone();
        box_blur(&mut got, w, h, radius);
        assert_eq!(got, expected, "w={w} h={h} radius={radius}");
    }
}

#[test]
fn a_zero_radius_leaves_the_mask_alone() {
    let mut mask = pattern(12, 3);
    let before = mask.clone();
    box_blur(&mut mask, 4, 3, 0);
    assert_eq!(mask, before);
}

#[test]
fn the_blur_leaves_bytes_past_the_image_alone() {
    let mut mask = vec![200u8; 10];
    box_blur(&mut mask, 3, 3, 1);
    assert_eq!(mask[9], 200);
}

#[test]
fn blending_follows_source_over() {
    let mut img = Img::new(2, 1);
    assert_eq!(img.px, vec![0; 8]);
    img.blend(1, 0, [10, 20, 30, 255]);
    assert_eq!(&img.px[4..8], &[10, 20, 30, 255]);
    img.blend(1, 0, [255, 255, 255, 0]);
    assert_eq!(&img.px[4..8], &[10, 20, 30, 255]);
    img.blend(1, 0, [255, 255, 255, 128]);
    let mixed = |c: u32, d: u32| ((c * 128 + d * 127) / 255) as u8;
    assert_eq!(&img.px[4..8], &[mixed(255, 10), mixed(255, 20), mixed(255, 30), 255]);
    img.blend(0, 0, [100, 100, 100, 64]);
    assert_eq!(&img.px[0..4], &[25, 25, 25, 64]);
}

/// Reads the chunks of a PNG: kind and data of each, checking every CRC.
fn chunks(png: &[u8]) -> Vec<([u8; 4], Vec<u8>)> {
    let mut out = Vec::new();
    let mut at = 8;
    while at < png.len() {
        let n = u32::from_be_bytes([png[at], png[at + 1], png[at + 2], png[at + 3]]) as usize;
        let kind = [png[at + 4], png[at + 5], png[at + 6], png[at + 7]];
        let data = png[at + 8..at + 8 + n].to_vec();
        let crc = u32::from_be_bytes([png[at + 8 + n], png[at + 9 + n], png[at + 10 + n], png[at + 11 + n]]);
        assert_eq!(crc, crc32(&png[at + 4..at + 8 + n]));
        out.push((kind, data));
        at += 12 + n;
    }
    out
}

#[test]
fn the_data_stream_inflates_back_to_the_scanlines() {
    let (w, h) = (100, 300);
    let rgba = pattern(w * h * 4, 11);
    let png = png_bytes(w, h, &rgba);
    let found = chunks(&png);
    assert_eq!(found.iter().map(|c| &c.0).collect::<Vec<_>>(), vec![b"IHDR", b"IDAT", b"IEND"]);
    let z = &found[1].1;
    let mut inflated = Vec::new();
    let mut at = 2;
    loop {
        let last = z[at];
        let n = u16::from_le_bytes([z[at + 1], z[at + 2]]) as usize;
        assert_eq!(u16::from_le_bytes([z[at + 3], z[at + 4]]), !(n as u16));
        inflated.extend_from_slice(&z[at + 5..at + 5 + n]);
        at += 5 + n;
        if last == 1 {
            break;
        }
    }
    let mut scanlines = Vec::new();
    for row in rgba.chunks(w * 4) {
        scanlines.push(0);
        scanlines.extend_from_slice(row);
    }
    assert_eq!(inflated, scanlines);
    assert_eq!(&z[at..], &adler32(&scanlines).to_be_bytes());
}
