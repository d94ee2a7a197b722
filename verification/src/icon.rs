//! The integer half of the app icon generator: an RGBA raster with
//! source-over blending, a three-pass box blur for masks, and a minimal PNG
//! encoder (stored deflate blocks, CRC-32 and Adler-32 checksums).
use vstd::prelude::*;

verus! {

// ---- checksums ------------------------------------------------------------------

/// One step of the reflected CRC-32 register (polynomial 0xEDB88320).
pub open spec fn crc_shift(c: u32) -> u32 {
    if c & 1 != 0 {
        0xEDB8_8320u32 ^ (c >> 1u32)
    } else {
        c >> 1u32
    }
}

/// Eight register steps: what one byte does once it is xored in.
pub open spec fn crc_shift8(c: u32) -> u32 {
    crc_shift(crc_shift(crc_shift(crc_shift(crc_shift(crc_shift(crc_shift(crc_shift(c))))))))
}

/// The register after `data`, starting from `c`.
pub open spec fn crc_register(c: u32, data: Seq<u8>) -> u32
    decreases data.len(),
{
    if data.len() == 0 {
        c
    } else {
        crc_shift8(crc_register(c, data.drop_last()) ^ (data.last() as u32))
    }
}

/// The CRC-32 of `data`, as PNG and zlib use it.
pub open spec fn crc32_of(data: Seq<u8>) -> u32 {
    crc_register(0xFFFF_FFFFu32, data) ^ 0xFFFF_FFFFu32
}

/// Eight steps on a register depend on its low byte through a table, and
/// shift the rest down.
proof fn lemma_crc_table(x: u32)
    ensures
        crc_shift8(x) == crc_shift8(x & 0xFFu32) ^ (x >> 8u32),
{
    assert(crc_shift8(x) == crc_shift8(x & 0xFFu32) ^ (x >> 8u32)) by (bit_vector);
}

fn crc_table() -> (t: Vec<u32>)
    ensures
        t@.len() == 256,
        forall|i: int| 0 <= i < 256 ==> #[trigger] t@[i] == crc_shift8(i as u32),
{
    let mut table: Vec<u32> = Vec::new();
    let mut i: u32 = 0;
    while i < 256
        invariant
            i <= 256,
            table@.len() == i,
            forall|k: int| 0 <= k < i ==> #[trigger] table@[k] == crc_shift8(k as u32),
        decreases 256 - i,
    {
        let mut c = i;
        let mut step: u32 = 0;
        while step < 8
            invariant
                step <= 8,
                step == 0 ==> c == i,
                step == 1 ==> c == crc_shift(i),
                step == 2 ==> c == crc_shift(crc_shift(i)),
                step == 3 ==> c == crc_shift(crc_shift(crc_shift(i))),
                step == 4 ==> c == crc_shift(crc_shift(crc_shift(crc_shift(i)))),
                step == 5 ==> c == crc_shift(crc_shift(crc_shift(crc_shift(crc_shift(i))))),
                step == 6 ==> c == crc_shift(crc_shift(crc_shift(crc_shift(crc_shift(crc_shift(i)))))),
                step == 7 ==> c == crc_shift(crc_shift(crc_shift(crc_shift(crc_shift(crc_shift(crc_shift(i))))))),
                step == 8 ==> c == crc_shift8(i),
            decreases 8 - step,
        {
            c = if c & 1 != 0 {
                0xEDB8_8320u32 ^ (c >> 1)
            } else {
                c >> 1
            };
            step = step + 1;
        }
        table.push(c);
        i = i + 1;
    }
    table
}

/// The CRC-32 of `data`.
pub fn crc32(data: &[u8]) -> (r: u32)
    ensures
        r == crc32_of(data@),
{
    let table = crc_table();
    let mut c: u32 = 0xFFFF_FFFF;
    let mut i: usize = 0;
    while i < data.len()
        invariant
            i <= data.len(),
            table@.len() == 256,
            forall|k: int| 0 <= k < 256 ==> #[trigger] table@[k] == crc_shift8(k as u32),
            c == crc_register(0xFFFF_FFFFu32, data@.take(i as int)),
        decreases data.len() - i,
    {
        let b = data[i];
        let x = c ^ (b as u32);
        let index = (x & 0xFF) as usize;
        proof {
            assert(data@.take(i + 1).drop_last() =~= data@.take(i as int));
            assert(data@.take(i + 1).last() == b);
            lemma_crc_table(x);
            assert((x & 0xFFu32) < 256u32) by (bit_vector);
            assert(x >> 8u32 == c >> 8u32) by (bit_vector)
                requires
                    x == c ^ (b as u32),
            ;
            assert(table@[index as int] == crc_shift8(x & 0xFFu32));
        }
        c = table[index] ^ (c >> 8);
        i = i + 1;
    }
    assert(data@.take(i as int) =~= data@);
    c ^ 0xFFFF_FFFF
}

/// The two running sums of Adler-32 after `data`.
pub open spec fn adler_sums(data: Seq<u8>) -> (int, int)
    decreases data.len(),
{
    if data.len() == 0 {
        (1, 0)
    } else {
        let (a, b) = adler_sums(data.drop_last());
        let a2 = (a + data.last()) % 65521;
        (a2, (b + a2) % 65521)
    }
}

/// The Adler-32 of `data`, as zlib closes a stream with it.
pub open spec fn adler32_of(data: Seq<u8>) -> int {
    adler_sums(data).1 * 65536 + adler_sums(data).0
}

/// The Adler-32 of `data`.
pub fn adler32(data: &[u8]) -> (r: u32)
    ensures
        r == adler32_of(data@),
{
    let mut a: u32 = 1;
    let mut b: u32 = 0;
    let mut i: usize = 0;
    while i < data.len()
        invariant
            i <= data.len(),
            a < 65521,
            b < 65521,
            (a as int, b as int) == adler_sums(data@.take(i as int)),
        decreases data.len() - i,
    {
        assert(data@.take(i + 1).drop_last() =~= data@.take(i as int));
        assert(data@.take(i + 1).last() == data[i as int]);
        a = (a + data[i] as u32) % 65521;
        b = (b + a) % 65521;
        i = i + 1;
    }
    assert(data@.take(i as int) =~= data@);
    let r = (b << 16) | a;
    assert(r == b * 65536 + a) by (bit_vector)
        requires
            r == (b << 16u32) | a,
            a < 65521u32,
            b < 65521u32,
    ;
    r
}

// ---- PNG --------------------------------------------------------------------------

/// `v` as four big-endian bytes.
pub open spec fn be32(v: u32) -> Seq<u8> {
    seq![(v / 16777216) as u8, ((v / 65536) % 256) as u8, ((v / 256) % 256) as u8, (v % 256) as u8]
}

/// `v` as two little-endian bytes.
pub open spec fn le16(v: u16) -> Seq<u8> {
    seq![(v % 256) as u8, (v / 256) as u8]
}

/// A PNG chunk: the data's length, the kind, the data, and the CRC-32 of
/// kind and data.
pub open spec fn chunk_bytes(kind: Seq<u8>, data: Seq<u8>) -> Seq<u8> {
    be32(data.len() as u32) + kind + data + be32(crc32_of(kind + data))
}

fn push_be32(out: &mut Vec<u8>, v: u32)
    ensures
        final(out)@ == old(out)@ + be32(v),
{
    let b0 = (v >> 24) as u8;
    let b1 = (v >> 16) as u8;
    let b2 = (v >> 8) as u8;
    let b3 = v as u8;
    assert(b0 == (v / 16777216) as u8 && b1 == ((v / 65536) % 256) as u8 && b2 == ((v / 256) % 256) as u8
        && b3 == (v % 256) as u8) by (bit_vector)
        requires
            b0 == (v >> 24u32) as u8,
            b1 == (v >> 16u32) as u8,
            b2 == (v >> 8u32) as u8,
            b3 == v as u8,
    ;
    out.push(b0);
    out.push(b1);
    out.push(b2);
    out.push(b3);
    assert(final(out)@ =~= old(out)@ + be32(v)) by {
        assert(out@ =~= old(out)@ + be32(v));
    }
}

fn push_le16(out: &mut Vec<u8>, v: u16)
    ensures
        final(out)@ == old(out)@ + le16(v),
{
    let lo = v as u8;
    let hi = (v >> 8) as u8;
    assert(lo == (v % 256) as u8 && hi == (v / 256) as u8) by (bit_vector)
        requires
            lo == v as u8,
            hi == (v >> 8u16) as u8,
    ;
    out.push(lo);
    out.push(hi);
    assert(out@ =~= old(out)@ + le16(v));
}

/// Append `src[start..end]` to `out`.
fn push_range(out: &mut Vec<u8>, src: &[u8], start: usize, end: usize)
    requires
        start <= end <= src@.len(),
    ensures
        final(out)@ == old(out)@ + src@.subrange(start as int, end as int),
{
    let mut i = start;
    while i < end
        invariant
            start <= i <= end <= src@.len(),
            out@ =~= old(out)@ + src@.subrange(start as int, i as int),
        decreases end - i,
    {
        out.push(src[i]);
        i = i + 1;
    }
}

/// Append a chunk of `kind` holding `data`.
fn chunk(out: &mut Vec<u8>, kind: &[u8; 4], data: &[u8])
    ensures
        final(out)@ == old(out)@ + chunk_bytes(kind@, data@),
{
    push_be32(out, data.len() as u32);
    let mut body: Vec<u8> = Vec::new();
    push_range(&mut body, kind.as_slice(), 0, 4);
    push_range(&mut body, data, 0, data.len());
    assert(kind@.subrange(0, 4) =~= kind@);
    assert(data@.subrange(0, data@.len() as int) =~= data@);
    push_range(out, body.as_slice(), 0, body.len());
    assert(body@.subrange(0, body@.len() as int) =~= body@);
    let crc = crc32(body.as_slice());
    push_be32(out, crc);
    assert(final(out)@ =~= old(out)@ + chunk_bytes(kind@, data@));
}

/// The rows of an image, each behind the "no filter" byte.
pub open spec fn scanlines(w: nat, rgba: Seq<u8>, h: nat) -> Seq<u8>
    decreases h,
{
    if h == 0 {
        Seq::empty()
    } else {
        scanlines(w, rgba, (h - 1) as nat) + seq![0u8] + rgba.subrange((h - 1) * w * 4, (h * w * 4) as int)
    }
}

/// The stored (uncompressed) deflate blocks of `raw` from position `i`:
/// each holds at most 65535 bytes, and the one that reaches the end is
/// marked last.
pub open spec fn stored_blocks(raw: Seq<u8>, i: nat) -> Seq<u8>
    decreases raw.len() - i,
{
    if i >= raw.len() {
        Seq::empty()
    } else {
        let n: nat = if raw.len() - i < 65535 {
            (raw.len() - i) as nat
        } else {
            65535
        };
        seq![
            if i + n >= raw.len() {
                1u8
            } else {
                0u8
            },
        ] + le16(n as u16) + le16((65535 - n) as u16) + raw.subrange(i as int, (i + n) as int) + stored_blocks(
            raw,
            i + n,
        )
    }
}

/// A zlib stream of stored blocks: the header, the blocks, and the Adler-32
/// of the data.
pub open spec fn zlib_stored(raw: Seq<u8>) -> Seq<u8> {
    seq![0x78u8, 0x01u8] + stored_blocks(raw, 0) + be32(adler32_of(raw) as u32)
}

/// The PNG signature.
pub open spec fn png_signature() -> Seq<u8> {
    seq![0x89u8, 0x50u8, 0x4Eu8, 0x47u8, 0x0Du8, 0x0Au8, 0x1Au8, 0x0Au8]
}

pub open spec fn ihdr_kind() -> Seq<u8> {
    seq![0x49u8, 0x48u8, 0x44u8, 0x52u8]
}

pub open spec fn idat_kind() -> Seq<u8> {
    seq![0x49u8, 0x44u8, 0x41u8, 0x54u8]
}

pub open spec fn iend_kind() -> Seq<u8> {
    seq![0x49u8, 0x45u8, 0x4Eu8, 0x44u8]
}

/// An 8-bit RGBA PNG of `w` by `h` pixels whose rows are taken from
/// `rgba`, one IDAT chunk of stored blocks.
pub open spec fn png_file(w: usize, h: usize, rgba: Seq<u8>) -> Seq<u8> {
    png_signature() + chunk_bytes(ihdr_kind(), be32(w as u32) + be32(h as u32) + seq![8u8, 6u8, 0u8, 0u8, 0u8])
        + chunk_bytes(idat_kind(), zlib_stored(scanlines(w as nat, rgba, h as nat))) + chunk_bytes(
        iend_kind(),
        Seq::empty(),
    )
}

proof fn lemma_row_fits(w: nat, h: nat, y: nat)
    requires
        y < h,
    ensures
        (y + 1) * w * 4 <= h * w * 4,
        0 <= y * w * 4 <= (y + 1) * w * 4,
        (y + 1) * w * 4 == y * w * 4 + w * 4,
        y * w <= y * w * 4,
{
    assert(y * w <= y * w * 4) by (nonlinear_arith);
    assert((y + 1) * w * 4 <= h * w * 4) by (nonlinear_arith)
        requires
            y < h,
    ;
    assert((y + 1) * w * 4 == y * w * 4 + w * 4) by (nonlinear_arith);
    assert(0 <= y * w * 4) by (nonlinear_arith);
}

fn scanline_bytes(w: usize, h: usize, rgba: &[u8]) -> (raw: Vec<u8>)
    requires
        h * w * 4 <= rgba@.len(),
    ensures
        raw@ == scanlines(w as nat, rgba@, h as nat),
{
    let mut raw: Vec<u8> = Vec::new();
    let mut y: usize = 0;
    let len = rgba.len();
    while y < h
        invariant
            y <= h,
            len == rgba@.len(),
            h * w * 4 <= rgba@.len(),
            raw@ == scanlines(w as nat, rgba@, y as nat),
        decreases h - y,
    {
        proof {
            lemma_row_fits(w as nat, h as nat, y as nat);
            assert(y * w * 4 <= usize::MAX);
        }
        raw.push(0);
        let start = y * w * 4;
        let end = start + w * 4;
        push_range(&mut raw, rgba, start, end);
        y = y + 1;
        assert(raw@ =~= scanlines(w as nat, rgba@, y as nat));
    }
    raw
}

fn stored_stream(raw: &[u8]) -> (z: Vec<u8>)
    ensures
        z@ == zlib_stored(raw@),
{
    let mut z: Vec<u8> = Vec::new();
    z.push(0x78);
    z.push(0x01);
    let mut i: usize = 0;
    assert(z@ =~= seq![0x78u8, 0x01u8]);
    while i < raw.len()
        invariant
            i <= raw@.len(),
            z@ + stored_blocks(raw@, i as nat) == seq![0x78u8, 0x01u8] + stored_blocks(raw@, 0),
        decreases raw.len() - i,
    {
        let n = if raw.len() - i < 65535 {
            raw.len() - i
        } else {
            65535
        };
        let last: u8 = if i + n >= raw.len() {
            1
        } else {
            0
        };
        let ghost before = z@;
        z.push(last);
        push_le16(&mut z, n as u16);
        push_le16(&mut z, !(n as u16));
        assert(!(n as u16) == (65535 - n) as u16) by (bit_vector)
            requires
                n <= 65535usize,
        ;
        push_range(&mut z, raw, i, i + n);
        assert(z@ =~= before + (seq![last] + le16(n as u16) + le16((65535 - n) as u16) + raw@.subrange(
            i as int,
            i + n,
        )));
        assert(z@ + stored_blocks(raw@, (i + n) as nat) =~= before + stored_blocks(raw@, i as nat));
        i = i + n;
    }
    let sum = adler32(raw);
    push_be32(&mut z, sum);
    assert(z@ =~= zlib_stored(raw@));
    z
}

/// The bytes of an 8-bit RGBA PNG of `w` by `h` pixels, row after row of
/// `rgba`.
pub fn png_bytes(w: usize, h: usize, rgba: &[u8]) -> (png: Vec<u8>)
    requires
        h * w * 4 <= rgba@.len(),
    ensures
        png@ == png_file(w, h, rgba@),
{
    let raw = scanline_bytes(w, h, rgba);
    let z = stored_stream(raw.as_slice());
    let mut png: Vec<u8> = Vec::new();
    png.push(0x89);
    png.push(0x50);
    png.push(0x4E);
    png.push(0x47);
    png.push(0x0D);
    png.push(0x0A);
    png.push(0x1A);
    png.push(0x0A);
    assert(png@ =~= png_signature());
    let mut ihdr: Vec<u8> = Vec::new();
    push_be32(&mut ihdr, w as u32);
    push_be32(&mut ihdr, h as u32);
    ihdr.push(8);
    ihdr.push(6);
    ihdr.push(0);
    ihdr.push(0);
    ihdr.push(0);
    assert(ihdr@ =~= be32(w as u32) + be32(h as u32) + seq![8u8, 6u8, 0u8, 0u8, 0u8]);
    let ihdr_tag: [u8; 4] = [0x49, 0x48, 0x44, 0x52];
    let idat_tag: [u8; 4] = [0x49, 0x44, 0x41, 0x54];
    let iend_tag: [u8; 4] = [0x49, 0x45, 0x4E, 0x44];
    assert(ihdr_tag@ =~= ihdr_kind());
    assert(idat_tag@ =~= idat_kind());
    assert(iend_tag@ =~= iend_kind());
    chunk(&mut png, &ihdr_tag, ihdr.as_slice());
    chunk(&mut png, &idat_tag, z.as_slice());
    let empty: Vec<u8> = Vec::new();
    chunk(&mut png, &iend_tag, empty.as_slice());
    assert(empty@ =~= Seq::<u8>::empty());
    assert(png@ =~= png_file(w, h, rgba@));
    png
}

// ---- box blur -------------------------------------------------------------------

/// The sum of `line[a..b]`.
pub open spec fn range_sum(line: Seq<u8>, a: int, b: int) -> int
    decreases b - a,
{
    if b <= a {
        0
    } else {
        range_sum(line, a, b - 1) + line[b - 1]
    }
}

pub open spec fn min_int(a: int, b: int) -> int {
    if a < b {
        a
    } else {
        b
    }
}

/// The running window sum at `x` of a box filter of half-width `r` along
/// `line`: it starts from the first `r` values, and each step takes in the
/// value `r` ahead (the last value repeats past the end) and lets go of the
/// value `r + 1` behind.
pub open spec fn window_sum(line: Seq<u8>, r: int, x: int) -> int
    decreases x + 1,
{
    let w = line.len() as int;
    let before = if x <= 0 {
        range_sum(line, 0, min_int(r, w))
    } else {
        window_sum(line, r, x - 1)
    };
    before + line[min_int(x + r, w - 1)] - (if x - r - 1 >= 0 {
        line[x - r - 1] as int
    } else {
        0
    })
}

/// One box-filter pass along a line: each value is its window sum divided
/// by the window's width, capped at 255.
pub open spec fn blurred_line(line: Seq<u8>, r: int) -> Seq<u8> {
    Seq::new(
        line.len(),
        |x: int| {
            let v = window_sum(line, r, x) / (2 * r + 1);
            if v > 255 {
                255u8
            } else {
                v as u8
            }
        },
    )
}

proof fn lemma_range_sum_bounds(line: Seq<u8>, a: int, b: int)
    requires
        0 <= a,
        b <= line.len(),
    ensures
        0 <= range_sum(line, a, b),
        a <= b ==> range_sum(line, a, b) <= (b - a) * 255,
    decreases b - a,
{
    if b > a {
        lemma_range_sum_bounds(line, a, b - 1);
    }
}

proof fn lemma_range_sum_front(line: Seq<u8>, a: int, b: int)
    requires
        a < b,
    ensures
        range_sum(line, a, b) == line[a] + range_sum(line, a + 1, b),
    decreases b - a,
{
    if b - 1 > a {
        lemma_range_sum_front(line, a, b - 1);
        assert(range_sum(line, a + 1, b) == range_sum(line, a + 1, b - 1) + line[b - 1]);
    } else {
        assert(range_sum(line, a, a) == 0);
        assert(range_sum(line, a + 1, b) == 0);
    }
}

/// The window sum in closed form: the values in the window that lie on
/// the line, plus the last value once for every step past the end.
proof fn lemma_window_sum(line: Seq<u8>, r: int, x: int)
    requires
        0 <= r,
        0 <= x < line.len(),
    ensures
        r < line.len() ==> window_sum(line, r, x) == range_sum(
            line,
            if x - r > 0 {
                x - r
            } else {
                0
            },
            min_int(x + r, line.len() - 1) + 1,
        ) + (if x + r - (line.len() - 1) > 0 {
            x + r - (line.len() - 1)
        } else {
            0
        }) * line[line.len() - 1],
        r >= line.len() ==> window_sum(line, r, x) == range_sum(line, 0, line.len() as int) + (x + 1)
            * line[line.len() - 1],
    decreases x,
{
    let w = line.len() as int;
    if x > 0 {
        lemma_window_sum(line, r, x - 1);
        if r < w && x - 1 - r >= 0 {
            lemma_range_sum_front(line, x - 1 - r, min_int(x + r, w - 1) + 1);
        }
        if r < w {
            let e0 = if x - 1 + r - (w - 1) > 0 {
                x - 1 + r - (w - 1)
            } else {
                0
            };
            let e1 = if x + r - (w - 1) > 0 {
                x + r - (w - 1)
            } else {
                0
            };
            if x + r > w - 1 {
                assert(e1 * line[w - 1] == e0 * line[w - 1] + line[w - 1]) by (nonlinear_arith)
                    requires
                        e1 == e0 + 1,
                ;
            }
        } else {
            assert((x + 1) * line[w - 1] == x * line[w - 1] + line[w - 1]) by (nonlinear_arith);
        }
    } else {
        if r >= w {
            assert(1 * line[w - 1] == line[w - 1]);
        }
    }
}

/// Window sums stay between 0 and 255 times the window's width.
proof fn lemma_window_bounds(line: Seq<u8>, r: int, x: int)
    requires
        0 <= r,
        0 <= x < line.len(),
    ensures
        0 <= window_sum(line, r, x) <= (2 * r + 1) * 255,
{
    let w = line.len() as int;
    lemma_window_sum(line, r, x);
    if r < w {
        let lo = if x - r > 0 {
            x - r
        } else {
            0
        };
        let hi = min_int(x + r, w - 1) + 1;
        let e = if x + r - (w - 1) > 0 {
            x + r - (w - 1)
        } else {
            0
        };
        lemma_range_sum_bounds(line, lo, hi);
        assert(0 <= e * line[w - 1] <= e * 255) by (nonlinear_arith)
            requires
                0 <= e,
                0 <= line[w - 1] <= 255,
        ;
        assert((hi - lo) + e <= 2 * r + 1);
        assert((hi - lo) * 255 + e * 255 <= (2 * r + 1) * 255) by (nonlinear_arith)
            requires
                (hi - lo) + e <= 2 * r + 1,
        ;
    } else {
        lemma_range_sum_bounds(line, 0, w);
        assert(0 <= (x + 1) * line[w - 1] <= (x + 1) * 255) by (nonlinear_arith)
            requires
                0 <= x,
                0 <= line[w - 1] <= 255,
        ;
        assert(w * 255 + (x + 1) * 255 <= (2 * r + 1) * 255) by (nonlinear_arith)
            requires
                x < w,
                w <= r,
        ;
    }
}

/// One box-filter pass along a line.
fn blur_line(line: &Vec<u8>, radius: usize) -> (out: Vec<u8>)
    requires
        (2 * radius + 2) * 255 <= u32::MAX,
    ensures
        out@ == blurred_line(line@, radius as int),
{
    let w = line.len();
    let ghost r = radius as int;
    let span = (radius * 2 + 1) as u32;
    let mut sum: u32 = 0;
    let first = if radius < w {
        radius
    } else {
        w
    };
    let mut k: usize = 0;
    while k < first
        invariant
            k <= first <= w,
            w == line@.len(),
            r == radius,
            first == min_int(r, w as int),
            (2 * radius + 2) * 255 <= u32::MAX,
            sum == range_sum(line@, 0, k as int),
        decreases first - k,
    {
        proof {
            lemma_range_sum_bounds(line@, 0, k + 1);
            assert(k < radius);
            assert((k + 1) * 255 <= (2 * radius + 2) * 255) by (nonlinear_arith)
                requires
                    k < radius,
            ;
        }
        sum = sum + line[k] as u32;
        k = k + 1;
    }
    let mut out: Vec<u8> = Vec::new();
    let mut x: usize = 0;
    while x < w
        invariant
            x <= w,
            w == line@.len(),
            r == radius,
            span == 2 * r + 1,
            (2 * radius + 2) * 255 <= u32::MAX,
            x == 0 ==> sum == range_sum(line@, 0, min_int(r, w as int)),
            x > 0 ==> sum == window_sum(line@, r, x - 1),
            out@.len() == x,
            forall|k: int| 0 <= k < x ==> out@[k] == #[trigger] blurred_line(line@, r)[k],
        decreases w - x,
    {
        proof {
            lemma_window_bounds(line@, r, x as int);
            if x > 0 {
                lemma_window_bounds(line@, r, x - 1);
            } else {
                lemma_range_sum_bounds(line@, 0, min_int(r, w as int));
                assert(min_int(r, w as int) * 255 <= (2 * r + 1) * 255) by (nonlinear_arith)
                    requires
                        min_int(r, w as int) <= r,
                        0 <= r,
                ;
            }
        }
        let add = if radius < w - 1 - x {
            x + radius
        } else {
            w - 1
        };
        sum = sum + line[add] as u32;
        if x > radius {
            sum = sum - line[x - radius - 1] as u32;
        }
        assert(sum == window_sum(line@, r, x as int));
        let v = sum / span;
        out.push(if v > 255 {
            255
        } else {
            v as u8
        });
        x = x + 1;
    }
    assert(out@ =~= blurred_line(line@, r));
    out
}

/// Row `y` of an image `w` pixels wide.
pub open spec fn row_of(m: Seq<u8>, w: int, y: int) -> Seq<u8> {
    m.subrange(y * w, y * w + w)
}

/// Column `x` of an image `w` pixels wide and `h` high.
pub open spec fn column_of(m: Seq<u8>, w: int, h: int, x: int) -> Seq<u8> {
    Seq::new(h as nat, |y: int| m[y * w + x])
}

/// Every row of the image blurred.
pub open spec fn rows_pass(m: Seq<u8>, w: int, h: int, r: int) -> Seq<u8> {
    Seq::new((w * h) as nat, |i: int| blurred_line(row_of(m, w, i / w), r)[i % w])
}

/// Every column of the image blurred.
pub open spec fn columns_pass(m: Seq<u8>, w: int, h: int, r: int) -> Seq<u8> {
    Seq::new((w * h) as nat, |i: int| blurred_line(column_of(m, w, h, i % w), r)[i / w])
}

/// One blur pass: rows, then columns.
pub open spec fn blur_pass(m: Seq<u8>, w: int, h: int, r: int) -> Seq<u8> {
    columns_pass(rows_pass(m, w, h, r), w, h, r)
}

/// Three passes, which approximate a Gaussian of about `r`.
pub open spec fn blurred(m: Seq<u8>, w: int, h: int, r: int) -> Seq<u8> {
    blur_pass(blur_pass(blur_pass(m, w, h, r), w, h, r), w, h, r)
}

/// Where pixel (`x`, `y`) lies.
proof fn lemma_pixel(w: int, h: int, x: int, y: int)
    requires
        0 <= x < w,
        0 <= y < h,
    ensures
        0 <= y * w + x < w * h,
        (y * w + x) / w == y,
        (y * w + x) % w == x,
        y * w + w <= w * h,
{
    vstd::arithmetic::div_mod::lemma_fundamental_div_mod_converse(y * w + x, w, y, x);
    assert(0 <= y * w) by (nonlinear_arith)
        requires
            0 <= y,
            0 <= w,
    ;
    assert(y * w + w <= w * h) by (nonlinear_arith)
        requires
            y < h,
            0 <= w,
    ;
}

/// Where row `y` lies.
proof fn lemma_row(w: int, h: int, y: int)
    requires
        0 <= w,
        0 <= y < h,
    ensures
        0 <= y * w,
        y * w + w <= w * h,
        (y + 1) * w == y * w + w,
{
    assert(0 <= y * w) by (nonlinear_arith)
        requires
            0 <= y,
            0 <= w,
    ;
    assert(y * w + w <= w * h) by (nonlinear_arith)
        requires
            y < h,
            0 <= w,
    ;
    assert((y + 1) * w == y * w + w) by (nonlinear_arith);
}

fn rows_blurred(m: &Vec<u8>, w: usize, h: usize, radius: usize) -> (out: Vec<u8>)
    requires
        w * h <= m@.len(),
        (2 * radius + 2) * 255 <= u32::MAX,
    ensures
        out@ == rows_pass(m@, w as int, h as int, radius as int),
{
    let ghost r = radius as int;
    let ghost want = rows_pass(m@, w as int, h as int, r);
    let mut out: Vec<u8> = Vec::new();
    let mut y: usize = 0;
    let len = m.len();
    while y < h
        invariant
            y <= h,
            len == m@.len(),
            w * h <= m@.len(),
            (2 * radius + 2) * 255 <= u32::MAX,
            r == radius,
            want == rows_pass(m@, w as int, h as int, r),
            out@.len() == y * w,
            forall|i: int| 0 <= i < y * w ==> out@[i] == #[trigger] want[i],
        decreases h - y,
    {
        proof {
            lemma_row(w as int, h as int, y as int);
        }
        let start = y * w;
        let mut line: Vec<u8> = Vec::new();
        push_range(&mut line, m.as_slice(), start, start + w);
        assert(line@.len() == w);
        let blurred = blur_line(&line, radius);
        let mut x: usize = 0;
        while x < w
            invariant
                x <= w,
                y < h,
                start == y * w,
                want == rows_pass(m@, w as int, h as int, r),
                line@ == row_of(m@, w as int, y as int),
                line@.len() == w,
                blurred@ == blurred_line(line@, r),
                out@.len() == y * w + x,
                forall|i: int| 0 <= i < y * w + x ==> out@[i] == #[trigger] want[i],
            decreases w - x,
        {
            proof {
                lemma_pixel(w as int, h as int, x as int, y as int);
                assert(want[y * w + x] == blurred_line(row_of(m@, w as int, y as int), r)[x as int]);
            }
            out.push(blurred[x]);
            x = x + 1;
        }
        proof {
            assert((y + 1) * w == y * w + w) by (nonlinear_arith);
        }
        y = y + 1;
    }
    proof {
        assert(want.len() == y * w) by (nonlinear_arith)
            requires
                y == h,
                want.len() == w * h,
        ;
    }
    assert(out@ =~= want);
    out
}

fn columns_blurred(m: &Vec<u8>, w: usize, h: usize, radius: usize) -> (out: Vec<u8>)
    requires
        m@.len() == w * h,
        (2 * radius + 2) * 255 <= u32::MAX,
    ensures
        out@ == columns_pass(m@, w as int, h as int, radius as int),
{
    let ghost r = radius as int;
    let ghost want = columns_pass(m@, w as int, h as int, r);
    let mut columns: Vec<Vec<u8>> = Vec::new();
    let mut x: usize = 0;
    let len = m.len();
    while x < w
        invariant
            x <= w,
            len == m@.len(),
            m@.len() == w * h,
            (2 * radius + 2) * 255 <= u32::MAX,
            r == radius,
            columns@.len() == x,
            forall|k: int| 0 <= k < x ==> (#[trigger] columns@[k])@ == blurred_line(
                column_of(m@, w as int, h as int, k),
                r,
            ),
        decreases w - x,
    {
        let mut column: Vec<u8> = Vec::new();
        let mut y: usize = 0;
        while y < h
            invariant
                y <= h,
                x < w,
                len == m@.len(),
                m@.len() == w * h,
                column@.len() == y,
                forall|k: int| 0 <= k < y ==> column@[k] == #[trigger] column_of(m@, w as int, h as int, x as int)[k],
            decreases h - y,
        {
            proof {
                lemma_pixel(w as int, h as int, x as int, y as int);
            }
            column.push(m[y * w + x]);
            y = y + 1;
        }
        assert(column@ =~= column_of(m@, w as int, h as int, x as int));
        columns.push(blur_line(&column, radius));
        x = x + 1;
    }
    let mut out: Vec<u8> = Vec::new();
    let mut y: usize = 0;
    while y < h
        invariant
            y <= h,
            m@.len() == w * h,
            r == radius,
            want == columns_pass(m@, w as int, h as int, r),
            columns@.len() == w,
            forall|k: int| 0 <= k < w ==> (#[trigger] columns@[k])@ == blurred_line(
                column_of(m@, w as int, h as int, k),
                r,
            ),
            out@.len() == y * w,
            forall|i: int| 0 <= i < y * w ==> out@[i] == #[trigger] want[i],
        decreases h - y,
    {
        let mut x: usize = 0;
        while x < w
            invariant
                x <= w,
                y < h,
                want == columns_pass(m@, w as int, h as int, r),
                columns@.len() == w,
                forall|k: int| 0 <= k < w ==> (#[trigger] columns@[k])@ == blurred_line(
                    column_of(m@, w as int, h as int, k),
                    r,
                ),
                out@.len() == y * w + x,
                forall|i: int| 0 <= i < y * w + x ==> out@[i] == #[trigger] want[i],
            decreases w - x,
        {
            proof {
                lemma_pixel(w as int, h as int, x as int, y as int);
            }
            let column = &columns[x];
            assert(column@.len() == h);
            out.push(column[y]);
            x = x + 1;
        }
        proof {
            assert((y + 1) * w == y * w + w) by (nonlinear_arith);
        }
        y = y + 1;
    }
    proof {
        assert(want.len() == y * w) by (nonlinear_arith)
            requires
                y == h,
                want.len() == w * h,
        ;
    }
    assert(out@ =~= want);
    out
}

/// Blur the first `w * h` bytes of a mask, `w` wide, with three box passes
/// of half-width `radius`; a radius of 0 leaves it as it is.
pub fn box_blur(mask: &mut Vec<u8>, w: usize, h: usize, radius: usize)
    requires
        w * h <= old(mask)@.len(),
        (2 * radius + 2) * 255 <= u32::MAX,
    ensures
        radius == 0 ==> final(mask)@ == old(mask)@,
        radius > 0 ==> final(mask)@ == blurred(old(mask)@.take(w * h), w as int, h as int, radius as int)
            + old(mask)@.skip(w * h),
{
    if radius == 0 {
        return;
    }
    let ghost r = radius as int;
    let ghost start = old(mask)@.take(w * h);
    let ghost rest = old(mask)@.skip(w * h);
    let ghost mut current = start;
    assert(mask@ =~= current + rest);
    let mut pass: usize = 0;
    let len = mask.len();
    while pass < 3
        invariant
            pass <= 3,
            len == mask@.len(),
            w * h <= len,
            r == radius,
            (2 * radius + 2) * 255 <= u32::MAX,
            current.len() == w * h,
            mask@ == current + rest,
            pass == 0 ==> current == start,
            pass == 1 ==> current == blur_pass(start, w as int, h as int, r),
            pass == 2 ==> current == blur_pass(blur_pass(start, w as int, h as int, r), w as int, h as int, r),
            pass == 3 ==> current == blurred(start, w as int, h as int, r),
        decreases 3 - pass,
    {
        let across = rows_blurred(mask, w, h, radius);
        assert(across@.len() == w * h);
        let down = columns_blurred(&across, w, h, radius);
        assert(mask@.take(w * h) =~= current);
        assert(rows_pass(mask@, w as int, h as int, r) =~= rows_pass(current, w as int, h as int, r)) by {
            assert forall|i: int| 0 <= i < w * h implies #[trigger] rows_pass(mask@, w as int, h as int, r)[i]
                == rows_pass(current, w as int, h as int, r)[i] by {
                let y = i / (w as int);
                let x = i % (w as int);
                vstd::arithmetic::div_mod::lemma_fundamental_div_mod(i, w as int);
                assert(0 <= x < w);
                assert(0 <= y < h) by (nonlinear_arith)
                    requires
                        i == w * y + x,
                        0 <= i < w * h,
                        0 <= x < w,
                ;
                lemma_pixel(w as int, h as int, x, y);
                assert(row_of(mask@, w as int, y) =~= row_of(current, w as int, y));
            }
        }
        let mut i: usize = 0;
        let ghost next = down@;
        let n = w * h;
        while i < n
            invariant
                n == w * h,
                i <= w * h,
                next == down@,
                next.len() == w * h,
                mask@.len() == w * h + rest.len(),
                mask@.skip(w * h) == rest,
                forall|k: int| 0 <= k < i ==> mask@[k] == next[k],
            decreases n - i,
        {
            mask.set(i, down[i]);
            assert(mask@.skip(w * h) =~= rest);
            i = i + 1;
        }
        proof {
            current = next;
            assert(mask@ =~= current + rest);
        }
        pass = pass + 1;
    }
}

// ---- the raster ---------------------------------------------------------------------

/// An RGBA8 image, straight (not premultiplied) alpha, row after row.
pub struct Img {
    pub w: usize,
    pub h: usize,
    pub px: Vec<u8>,
}

/// One colour channel of `c` laid over `d` at opacity `a` (of 255).
pub open spec fn over(c: u8, d: u8, a: u8) -> u8 {
    ((c * a + d * (255 - a)) / 255) as u8
}

/// The alpha of `a` laid over a pixel of alpha `d`.
pub open spec fn alpha_over(a: u8, d: u8) -> u8 {
    let v = a + d * (255 - a) / 255;
    if v > 255 {
        255u8
    } else {
        v as u8
    }
}

/// `px` with colour `c` laid over the pixel at byte `i`: a transparent
/// colour changes nothing, an opaque one replaces the pixel, others are
/// mixed by their alpha.
pub open spec fn blended(px: Seq<u8>, i: int, c: Seq<u8>) -> Seq<u8> {
    let a = c[3];
    if a == 0 {
        px
    } else if a == 255 {
        px.update(i, c[0]).update(i + 1, c[1]).update(i + 2, c[2]).update(i + 3, c[3])
    } else {
        px.update(i, over(c[0], px[i], a)).update(i + 1, over(c[1], px[i + 1], a)).update(
            i + 2,
            over(c[2], px[i + 2], a),
        ).update(i + 3, alpha_over(a, px[i + 3]))
    }
}

fn mix(c: u8, d: u8, a: u8) -> (r: u8)
    ensures
        r == over(c, d, a),
{
    let (cc, dd, aa) = (c as u32, d as u32, a as u32);
    assert(cc * aa <= 65025 && dd * (255 - aa) <= 65025) by (nonlinear_arith)
        requires
            cc <= 255,
            dd <= 255,
            aa <= 255,
    ;
    let v = (cc * aa + dd * (255 - aa)) / 255;
    assert(cc * aa + dd * (255 - aa) <= 255 * 255) by (nonlinear_arith)
        requires
            cc <= 255,
            dd <= 255,
            aa <= 255,
    ;
    v as u8
}

impl Img {
    /// The image holds four bytes for each of its pixels.
    pub open spec fn wf(&self) -> bool {
        self.px@.len() == self.w * self.h * 4
    }

    /// A transparent image.
    pub fn new(w: usize, h: usize) -> (r: Img)
        requires
            w * h * 4 <= usize::MAX,
        ensures
            r.wf(),
            r.w == w,
            r.h == h,
            forall|i: int| 0 <= i < r.px@.len() ==> r.px@[i] == 0,
    {
        let px = vec![0u8; w * h * 4];
        assert forall|i: int| 0 <= i < px@.len() implies px@[i] == 0 by {
            assert(cloned::<u8>(0u8, px@[i]));
        }
        Img { w, h, px }
    }

    /// Lay colour `c` over the pixel at (`x`, `y`).
    pub fn blend(&mut self, x: usize, y: usize, c: [u8; 4])
        requires
            old(self).wf(),
            x < old(self).w,
            y < old(self).h,
        ensures
            final(self).wf(),
            final(self).w == old(self).w,
            final(self).h == old(self).h,
            final(self).px@ == blended(old(self).px@, (y * old(self).w + x) * 4, c@),
    {
        let len = self.px.len();
        proof {
            lemma_pixel(self.w as int, self.h as int, x as int, y as int);
            assert((y * self.w + x) * 4 + 3 < self.w * self.h * 4) by (nonlinear_arith)
                requires
                    y * self.w + x < self.w * self.h,
            ;
        }
        let i = (y * self.w + x) * 4;
        let a = c[3];
        if a == 0 {
            return;
        }
        if a == 255 {
            self.px.set(i, c[0]);
            self.px.set(i + 1, c[1]);
            self.px.set(i + 2, c[2]);
            self.px.set(i + 3, c[3]);
            return;
        }
        let ghost before = self.px@;
        let r0 = mix(c[0], self.px[i], a);
        self.px.set(i, r0);
        let r1 = mix(c[1], self.px[i + 1], a);
        self.px.set(i + 1, r1);
        let r2 = mix(c[2], self.px[i + 2], a);
        self.px.set(i + 2, r2);
        let da = self.px[i + 3] as u32;
        let aa = a as u32;
        assert(da * (255 - aa) <= 65025) by (nonlinear_arith)
            requires
                da <= 255,
                aa <= 255,
        ;
        let v = aa + da * (255 - aa) / 255;
        let r3 = if v > 255 {
            255u8
        } else {
            v as u8
        };
        self.px.set(i + 3, r3);
        assert(self.px@ =~= blended(before, i as int, c@));
    }
}

// ---- reading back ------------------------------------------------------------------

/// Four big-endian bytes as a number.
pub open spec fn read_be32(b: Seq<u8>) -> int {
    b[0] * 16777216 + b[1] * 65536 + b[2] * 256 + b[3]
}

/// Two little-endian bytes as a number.
pub open spec fn read_le16(b: Seq<u8>) -> int {
    b[0] + b[1] * 256
}

/// The data of a run of stored deflate blocks, as an inflater reads it: each
/// block's header, its length and the length's complement, then that many
/// bytes; reading stops after the block marked last, and anything malformed
/// reads as nothing.
pub open spec fn unstored(z: Seq<u8>) -> Seq<u8>
    decreases z.len(),
{
    if z.len() < 5 {
        Seq::empty()
    } else {
        let n = read_le16(z.subrange(1, 3));
        if read_le16(z.subrange(3, 5)) != 65535 - n || 5 + n > z.len() {
            Seq::empty()
        } else if z[0] == 1 {
            z.subrange(5, 5 + n)
        } else {
            z.subrange(5, 5 + n) + unstored(z.skip(5 + n))
        }
    }
}

/// The chunk at the front of `file`, as a reader finds it: its kind, its
/// data and what follows, provided its CRC matches.
pub open spec fn read_chunk(file: Seq<u8>) -> Option<(Seq<u8>, Seq<u8>, Seq<u8>)> {
    if file.len() < 12 {
        None
    } else {
        let n = read_be32(file.subrange(0, 4));
        if 12 + n > file.len() {
            None
        } else {
            let kind = file.subrange(4, 8);
            let data = file.subrange(8, 8 + n);
            let crc = read_be32(file.subrange(8 + n, 12 + n));
            if crc == crc32_of(kind + data) as int {
                Some((kind, data, file.skip(12 + n)))
            } else {
                None
            }
        }
    }
}

proof fn lemma_be32(v: u32)
    ensures
        read_be32(be32(v)) == v,
{
    let b = be32(v);
    assert(b[0] * 16777216 + b[1] * 65536 + b[2] * 256 + b[3] == v) by (nonlinear_arith)
        requires
            b[0] == v / 16777216,
            b[1] == (v / 65536) % 256,
            b[2] == (v / 256) % 256,
            b[3] == v % 256,
            v < 4294967296,
    ;
}

proof fn lemma_le16(v: u16)
    ensures
        read_le16(le16(v)) == v,
{
    let b = le16(v);
    assert(b[0] + b[1] * 256 == v) by (nonlinear_arith)
        requires
            b[0] == v % 256,
            b[1] == v / 256,
            v < 65536,
    ;
}

/// A chunk reads back as written: its kind, its data, and what follows,
/// with a CRC that matches.
pub proof fn chunks_read_back(kind: Seq<u8>, data: Seq<u8>, rest: Seq<u8>)
    requires
        kind.len() == 4,
        data.len() <= u32::MAX,
    ensures
        read_chunk(chunk_bytes(kind, data) + rest) == Some((kind, data, rest)),
{
    let file = chunk_bytes(kind, data) + rest;
    let n = data.len();
    lemma_be32(n as u32);
    lemma_be32(crc32_of(kind + data));
    assert(file.subrange(0, 4) =~= be32(n as u32));
    assert(file.subrange(4, 8) =~= kind);
    assert(file.subrange(8, 8 + n as int) =~= data);
    assert(file.subrange(8 + n as int, 12 + n as int) =~= be32(crc32_of(kind + data)));
    assert(file.skip(12 + n as int) =~= rest);
}

proof fn lemma_unstored_from(raw: Seq<u8>, i: nat)
    requires
        i <= raw.len(),
    ensures
        unstored(stored_blocks(raw, i)) == raw.skip(i as int),
    decreases raw.len() - i,
{
    if i >= raw.len() {
        assert(raw.skip(i as int) =~= Seq::<u8>::empty());
    } else {
        let n: nat = if raw.len() - i < 65535 {
            (raw.len() - i) as nat
        } else {
            65535
        };
        let last: u8 = if i + n >= raw.len() {
            1u8
        } else {
            0u8
        };
        let payload = raw.subrange(i as int, (i + n) as int);
        let rest = stored_blocks(raw, i + n);
        let z = stored_blocks(raw, i);
        assert(z == seq![last] + le16(n as u16) + le16((65535 - n) as u16) + payload + rest);
        lemma_le16(n as u16);
        lemma_le16((65535 - n) as u16);
        assert(z.subrange(1, 3) =~= le16(n as u16));
        assert(z.subrange(3, 5) =~= le16((65535 - n) as u16));
        assert(z[0] == last);
        assert(z.subrange(5, 5 + n as int) =~= payload);
        assert(z.skip(5 + n as int) =~= rest);
        if i + n < raw.len() {
            lemma_unstored_from(raw, i + n);
            assert(payload + raw.skip((i + n) as int) =~= raw.skip(i as int));
        } else {
            assert(payload =~= raw.skip(i as int));
        }
    }
}

/// The stored blocks of the PNG's data stream inflate back to exactly the
/// scanlines that went in.
pub proof fn stored_blocks_read_back(raw: Seq<u8>)
    ensures
        unstored(stored_blocks(raw, 0)) == raw,
{
    lemma_unstored_from(raw, 0);
    assert(raw.skip(0) =~= raw);
}

} // verus!
