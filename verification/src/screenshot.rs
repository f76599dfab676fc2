//! Screenshot file naming and a minimal PNG encoder: 8-bit truecolor, one
//! unfiltered scanline per row, zlib with stored (uncompressed) deflate
//! blocks.

use vstd::prelude::*;
use crate::text::{push_str, push_decimal, push_decimal_padded, decimal, decimal_padded};

verus! {

// ---- file name ----

pub open spec fn screenshot_name_spec(secs: u64, millis: u32) -> Seq<char> {
    "terminal-cam-"@ + decimal(secs as nat) + "-"@ + decimal_padded(millis as nat, 3) + ".png"@
}

/// File name for a screenshot taken `secs` seconds and `millis`
/// milliseconds after the Unix epoch.
pub fn screenshot_name(secs: u64, millis: u32) -> (name: String)
    ensures
        name@ == screenshot_name_spec(secs, millis),
{
    let mut s = String::new();
    push_str(&mut s, "terminal-cam-");
    push_decimal(&mut s, secs);
    push_str(&mut s, "-");
    push_decimal_padded(&mut s, millis as u64, 3);
    push_str(&mut s, ".png");
    assert(s@ =~= screenshot_name_spec(secs, millis));
    s
}

// ---- byte layout ----

pub open spec fn be32(x: u32) -> Seq<u8> {
    seq![
        (x / 0x1000000) as u8,
        ((x / 0x10000) % 256) as u8,
        ((x / 0x100) % 256) as u8,
        (x % 256) as u8,
    ]
}

pub open spec fn le16(x: u16) -> Seq<u8> {
    seq![(x % 256) as u8, (x / 256) as u8]
}

/// Appends `x` as 4 big-endian bytes.
pub fn push_be32(out: &mut Vec<u8>, x: u32)
    ensures
        final(out)@ == old(out)@ + be32(x),
{
    out.push((x / 0x1000000) as u8);
    out.push(((x / 0x10000) % 256) as u8);
    out.push(((x / 0x100) % 256) as u8);
    out.push((x % 256) as u8);
    assert(final(out)@ =~= old(out)@ + be32(x));
}

/// Appends `x` as 2 little-endian bytes.
pub fn push_le16(out: &mut Vec<u8>, x: u16)
    ensures
        final(out)@ == old(out)@ + le16(x),
{
    out.push((x % 256) as u8);
    out.push((x / 256) as u8);
    assert(final(out)@ =~= old(out)@ + le16(x));
}

/// Appends a run of bytes.
pub fn push_bytes(out: &mut Vec<u8>, data: &[u8])
    ensures
        final(out)@ == old(out)@ + data@,
{
    out.extend_from_slice(data);
    assert(final(out)@ =~= old(out)@ + data@);
}

// ---- checksums ----

pub const ADLER_MOD: u32 = 65521;

/// Adler-32 running sums (a, b) after `data`.
pub open spec fn adler_sums(data: Seq<u8>) -> (int, int)
    decreases data.len(),
{
    if data.len() == 0 {
        (1, 0)
    } else {
        let (a, b) = adler_sums(data.drop_last());
        let a2 = (a + data.last()) % 65521;
        (a2, (b + a2) % 65521)
    }
}

pub open spec fn adler32_spec(data: Seq<u8>) -> u32 {
    let (a, b) = adler_sums(data);
    (b * 65536 + a) as u32
}

proof fn lemma_adler_sums_bound(data: Seq<u8>)
    ensures
        0 <= adler_sums(data).0 < 65521,
        0 <= adler_sums(data).1 < 65521,
    decreases data.len(),
{
    if data.len() > 0 {
        lemma_adler_sums_bound(data.drop_last());
    }
}

/// Adler-32 checksum (zlib trailer).
pub fn adler32(data: &[u8]) -> (sum: u32)
    ensures
        sum == adler32_spec(data@),
{
    let mut a: u32 = 1;
    let mut b: u32 = 0;
    let mut i: usize = 0;
    while i < data.len()
        invariant
            i <= data.len(),
            (a as int, b as int) == adler_sums(data@.subrange(0, i as int)),
            a < 65521,
            b < 65521,
        decreases data.len() - i,
    {
        assert(data@.subrange(0, i + 1).drop_last() =~= data@.subrange(0, i as int));
        a = (a + data[i] as u32) % ADLER_MOD;
        b = (b + a) % ADLER_MOD;
        i = i + 1;
    }
    assert(data@.subrange(0, i as int) =~= data@);
    assert((b << 16) | a == b * 65536 + a) by (bit_vector)
        requires a < 65521, b < 65521;
    (b << 16) | a
}

/// One bit step of the reflected CRC-32 (polynomial 0xEDB88320).
pub open spec fn crc_bit(c: u32) -> u32 {
    if c & 1 == 1 {
        (c >> 1) ^ 0xedb8_8320u32
    } else {
        c >> 1
    }
}

pub open spec fn crc_bits(c: u32, n: nat) -> u32
    decreases n,
{
    if n == 0 {
        c
    } else {
        crc_bit(crc_bits(c, (n - 1) as nat))
    }
}

/// CRC register after feeding `data` into a register that started at
/// all ones.
pub open spec fn crc_register(data: Seq<u8>) -> u32
    decreases data.len(),
{
    if data.len() == 0 {
        0xffff_ffffu32
    } else {
        crc_bits(crc_register(data.drop_last()) ^ (data.last() as u32), 8)
    }
}

pub open spec fn crc32_spec(data: Seq<u8>) -> u32 {
    !crc_register(data)
}

/// CRC-32 (as used by PNG chunks).
pub fn crc32(data: &[u8]) -> (c: u32)
    ensures
        c == crc32_spec(data@),
{
    let mut crc: u32 = 0xffff_ffff;
    let mut i: usize = 0;
    while i < data.len()
        invariant
            i <= data.len(),
            crc == crc_register(data@.subrange(0, i as int)),
        decreases data.len() - i,
    {
        assert(data@.subrange(0, i + 1).drop_last() =~= data@.subrange(0, i as int));
        crc = crc ^ (data[i] as u32);
        let ghost start = crc;
        let mut k: u32 = 0;
        while k < 8
            invariant
                k <= 8,
                crc == crc_bits(start, k as nat),
            decreases 8 - k,
        {
            let low = crc & 1;
            assert(low == 0 || low == 1) by (bit_vector)
                requires low == crc & 1;
            let mask = 0u32.wrapping_sub(low);
            assert(mask == (if low == 0 { 0u32 } else { 0xffff_ffffu32 }));
            let next = (crc >> 1) ^ (0xedb8_8320 & mask);
            assert(next == crc_bit(crc)) by (bit_vector)
                requires
                    low == crc & 1,
                    mask == (if low == 0 { 0u32 } else { 0xffff_ffffu32 }),
                    next == (crc >> 1) ^ (0xedb8_8320 & mask);
            crc = next;
            k = k + 1;
        }
        i = i + 1;
    }
    assert(data@.subrange(0, i as int) =~= data@);
    !crc
}

// ---- deflate stored blocks ----

/// Largest payload of one stored deflate block.
pub const STORED_BLOCK_MAX: usize = 65535;

/// One stored block: BFINAL/BTYPE byte, LEN and NLEN (little endian), payload.
pub open spec fn stored_block(is_final: bool, block: Seq<u8>) -> Seq<u8> {
    seq![if is_final { 1u8 } else { 0u8 }] + le16(block.len() as u16) + le16((65535 - block.len()) as u16)
        + block
}

/// `data` split into stored blocks of at most 65535 bytes; the last one
/// is marked final. Empty data is a single empty final block.
pub open spec fn stored_blocks(data: Seq<u8>) -> Seq<u8>
    decreases data.len(),
{
    if data.len() <= 65535 {
        stored_block(true, data)
    } else {
        stored_block(false, data.take(65535)) + stored_blocks(data.skip(65535))
    }
}

fn push_stored_block(out: &mut Vec<u8>, is_final: bool, block: &[u8])
    requires
        block@.len() <= 65535,
    ensures
        final(out)@ == old(out)@ + stored_block(is_final, block@),
{
    out.push(if is_final { 1 } else { 0 });
    let len = block.len() as u16;
    push_le16(out, len);
    let nlen = !len;
    assert(nlen == 65535 - len) by (bit_vector)
        requires nlen == !len;
    push_le16(out, nlen);
    push_bytes(out, block);
    assert(final(out)@ =~= old(out)@ + stored_block(is_final, block@));
}

/// Appends `data` as a sequence of stored (uncompressed) deflate blocks.
pub fn write_stored_deflate_blocks(out: &mut Vec<u8>, data: &[u8])
    ensures
        final(out)@ == old(out)@ + stored_blocks(data@),
{
    if data.len() == 0 {
        push_stored_block(out, true, data);
        return;
    }
    let ghost start = out@;
    let mut pos: usize = 0;
    assert(data@.skip(0) =~= data@);
    while pos < data.len()
        invariant
            pos <= data.len(),
            data@.len() > 0,
            pos == data.len() ==> out@ == start + stored_blocks(data@),
            pos < data.len() ==> out@ + stored_blocks(data@.skip(pos as int)) == start + stored_blocks(data@),
        decreases data.len() - pos,
    {
        let rem = data.len() - pos;
        let block_len = if rem < STORED_BLOCK_MAX { rem } else { STORED_BLOCK_MAX };
        let final_block = block_len == rem;
        let ghost before = out@;
        let ghost rest = data@.skip(pos as int);
        push_stored_block(out, final_block, &data[pos..pos + block_len]);
        if final_block {
            assert(data@.subrange(pos as int, (pos + block_len) as int) =~= rest);
            assert(stored_blocks(rest) == stored_block(true, rest));
        } else {
            assert(data@.subrange(pos as int, (pos + block_len) as int) =~= rest.take(65535));
            assert(rest.skip(65535) =~= data@.skip(pos + 65535));
            assert(stored_blocks(rest) == stored_block(false, rest.take(65535)) + stored_blocks(rest.skip(65535)));
            assert(out@ + stored_blocks(data@.skip(pos + block_len)) == before + stored_blocks(rest));
        }
        pos = pos + block_len;
    }
}

// ---- PNG container ----

pub open spec fn png_signature() -> Seq<u8> {
    seq![0x89u8, 0x50, 0x4e, 0x47, 0x0d, 0x0a, 0x1a, 0x0a]
}

/// Chunk tags: `IHDR`, `IDAT`, `IEND`.
pub open spec fn ihdr_tag() -> Seq<u8> {
    seq![73u8, 72, 68, 82]
}

pub open spec fn idat_tag() -> Seq<u8> {
    seq![73u8, 68, 65, 84]
}

pub open spec fn iend_tag() -> Seq<u8> {
    seq![73u8, 69, 78, 68]
}

/// A chunk: payload length (big endian), tag, payload, CRC-32 of tag and payload.
pub open spec fn png_chunk(kind: Seq<u8>, data: Seq<u8>) -> Seq<u8> {
    be32(data.len() as u32) + kind + data + be32(crc32_spec(kind + data))
}

/// IHDR payload: size, bit depth 8, color type 2 (RGB), default compression,
/// filter and no interlace.
pub open spec fn ihdr_data(width: u32, height: u32) -> Seq<u8> {
    be32(width) + be32(height) + seq![8u8, 2, 0, 0, 0]
}

/// The image rows, each preceded by filter type 0 (none).
pub open spec fn scanlines(rgb: Seq<u8>, row_len: nat, rows: nat) -> Seq<u8>
    decreases rows,
{
    if rows == 0 {
        Seq::empty()
    } else {
        scanlines(rgb, row_len, (rows - 1) as nat) + seq![0u8] + rgb.subrange(
            (rows - 1) * row_len,
            (rows * row_len) as int,
        )
    }
}

/// zlib stream: header `78 01`, stored deflate blocks, Adler-32 trailer.
pub open spec fn zlib_stored(data: Seq<u8>) -> Seq<u8> {
    seq![0x78u8, 0x01] + stored_blocks(data) + be32(adler32_spec(data))
}

/// The complete PNG file for a `width` x `height` RGB image.
pub open spec fn png_bytes(width: u32, height: u32, rgb: Seq<u8>) -> Seq<u8> {
    png_signature() + png_chunk(ihdr_tag(), ihdr_data(width, height)) + png_chunk(
        idat_tag(),
        zlib_stored(scanlines(rgb, (width * 3) as nat, height as nat)),
    ) + png_chunk(iend_tag(), Seq::empty())
}

/// Appends one chunk.
pub fn write_chunk(out: &mut Vec<u8>, kind: &[u8; 4], data: &[u8])
    ensures
        final(out)@ == old(out)@ + png_chunk(kind@, data@),
{
    push_be32(out, data.len() as u32);
    let mut crc_input: Vec<u8> = Vec::new();
    crc_input.push(kind[0]);
    crc_input.push(kind[1]);
    crc_input.push(kind[2]);
    crc_input.push(kind[3]);
    assert(crc_input@ =~= kind@);
    push_bytes(out, crc_input.as_slice());
    push_bytes(out, data);
    push_bytes(&mut crc_input, data);
    let c = crc32(crc_input.as_slice());
    push_be32(out, c);
    assert(final(out)@ =~= old(out)@ + png_chunk(kind@, data@));
}

/// Why an image could not be encoded.
#[derive(Clone, Copy, PartialEq, Eq, Debug, Structural)]
pub enum PngError {
    /// The pixel buffer does not hold exactly `width * height * 3` bytes.
    BufferLength,
}

/// The sizes for which the encoder's buffer arithmetic stays in `usize`.
pub open spec fn png_size_fits(width: u32, height: u32) -> bool {
    let s = (width * 3 + 1) * height;
    &&& width * 3 + 1 <= usize::MAX
    &&& s + (s / 65535) * 5 + 262 <= usize::MAX
}

proof fn lemma_row_bounds(y: int, row_len: int, height: int)
    requires
        0 <= y < height,
        0 <= row_len,
    ensures
        y * row_len + row_len == (y + 1) * row_len,
        (y + 1) * row_len <= height * row_len,
        0 <= y * row_len,
        height * row_len <= (row_len + 1) * height,
        height * row_len == row_len * height,
{
    assert(height * row_len == row_len * height) by (nonlinear_arith);
    assert(height * row_len <= (row_len + 1) * height) by (nonlinear_arith)
        requires 0 <= y < height, 0 <= row_len;
    assert(y * row_len + row_len == (y + 1) * row_len) by (nonlinear_arith);
    assert((y + 1) * row_len <= height * row_len) by (nonlinear_arith)
        requires y + 1 <= height, 0 <= row_len;
    assert(0 <= y * row_len) by (nonlinear_arith)
        requires 0 <= y, 0 <= row_len;
}

/// Filter-type-0 scanlines of an image whose rows are `row_len` bytes.
pub fn build_scanlines(rgb: &[u8], row_len: usize, height: usize) -> (scan: Vec<u8>)
    requires
        rgb@.len() == row_len * height,
        (row_len + 1) * height <= usize::MAX,
    ensures
        scan@ == scanlines(rgb@, row_len as nat, height as nat),
{
    let mut scan: Vec<u8> = Vec::new();
    let mut y: usize = 0;
    while y < height
        invariant
            y <= height,
            rgb@.len() == row_len * height,
            (row_len + 1) * height <= usize::MAX,
            scan@ == scanlines(rgb@, row_len as nat, y as nat),
        decreases height - y,
    {
        proof {
            lemma_row_bounds(y as int, row_len as int, height as int);
        }
        let start = y * row_len;
        let end = start + row_len;
        scan.push(0);
        push_bytes(&mut scan, &rgb[start..end]);
        y = y + 1;
        assert(scan@ =~= scanlines(rgb@, row_len as nat, y as nat));
    }
    scan
}

/// Encodes an RGB image (row-major, 3 bytes per pixel) as a PNG file.
pub fn encode_png(width: u32, height: u32, rgb: &[u8]) -> (r: Result<Vec<u8>, PngError>)
    requires
        png_size_fits(width, height),
        width > 0 || rgb@.len() > 0,
    ensures
        rgb@.len() != width * height * 3 ==> r == Err::<Vec<u8>, PngError>(PngError::BufferLength),
        rgb@.len() == width * height * 3 ==> (r matches Ok(bytes) && bytes@ == png_bytes(width, height, rgb@)),
{
    proof {
        assert(width * height * 3 <= (width * 3 + 1) * height) by (nonlinear_arith);
    }
    if rgb.len() != width as usize * height as usize * 3 {
        return Err(PngError::BufferLength);
    }
    let mut out: Vec<u8> = Vec::new();
    out.push(0x89);
    out.push(0x50);
    out.push(0x4e);
    out.push(0x47);
    out.push(0x0d);
    out.push(0x0a);
    out.push(0x1a);
    out.push(0x0a);
    assert(out@ =~= png_signature());

    let mut ihdr: Vec<u8> = Vec::new();
    push_be32(&mut ihdr, width);
    push_be32(&mut ihdr, height);
    ihdr.push(8); // bit depth
    ihdr.push(2); // truecolor RGB
    ihdr.push(0); // compression method
    ihdr.push(0); // filter method
    ihdr.push(0); // no interlace
    assert(ihdr@ =~= ihdr_data(width, height));
    write_chunk(&mut out, &[73, 72, 68, 82], ihdr.as_slice());

    let row_len = width as usize * 3;
    proof {
        assert((width * 3 + 1) * height == width * 3 * height + height) by (nonlinear_arith);
        assert(width * height * 3 == width * 3 * height) by (nonlinear_arith);
    }
    let scan = build_scanlines(rgb, row_len, height as usize);

    let mut zlib: Vec<u8> = Vec::new();
    zlib.push(0x78);
    zlib.push(0x01);
    write_stored_deflate_blocks(&mut zlib, scan.as_slice());
    push_be32(&mut zlib, adler32(scan.as_slice()));
    assert(zlib@ =~= zlib_stored(scanlines(rgb@, (width * 3) as nat, height as nat)));
    write_chunk(&mut out, &[73, 68, 65, 84], zlib.as_slice());
    let empty: Vec<u8> = Vec::new();
    write_chunk(&mut out, &[73, 69, 78, 68], empty.as_slice());
    assert(out@ =~= png_bytes(width, height, rgb@));
    Ok(out)
}

// ---- reading the file back ----

/// Big-endian value of 4 bytes.
pub open spec fn be32_value(b: Seq<u8>) -> int {
    b[0] as int * 0x1000000 + b[1] as int * 0x10000 + b[2] as int * 0x100 + b[3] as int
}

pub open spec fn le16_value(lo: u8, hi: u8) -> int {
    lo as int + hi as int * 256
}

/// One chunk at the start of `bytes`: tag, payload and total size, when
/// the length field fits and the CRC matches.
#[verifier::opaque]
pub open spec fn parse_chunk(bytes: Seq<u8>) -> Option<(Seq<u8>, Seq<u8>, int)> {
    if bytes.len() < 12 {
        None
    } else {
        let n = be32_value(bytes.take(4));
        if bytes.len() < 12 + n {
            None
        } else {
            let kind = bytes.subrange(4, 8);
            let data = bytes.subrange(8, 8 + n);
            if be32_value(bytes.subrange(8 + n, 12 + n)) == crc32_spec(kind + data) as int {
                Some((kind, data, 12 + n))
            } else {
                None
            }
        }
    }
}

/// Stored deflate blocks at the start of `bytes`, up to the final one:
/// the payload and the number of bytes read.
pub open spec fn inflate_stored(bytes: Seq<u8>) -> Option<(Seq<u8>, int)>
    decreases bytes.len(),
{
    if bytes.len() < 5 {
        None
    } else {
        let len = le16_value(bytes[1], bytes[2]);
        let nlen = le16_value(bytes[3], bytes[4]);
        if nlen != 65535 - len || bytes.len() < 5 + len || (bytes[0] != 0 && bytes[0] != 1) {
            None
        } else if bytes[0] == 1 {
            Some((bytes.subrange(5, 5 + len), 5 + len))
        } else {
            match inflate_stored(bytes.skip(5 + len)) {
                Some((rest, n)) => Some((bytes.subrange(5, 5 + len) + rest, 5 + len + n)),
                None => None,
            }
        }
    }
}

/// The payload of a zlib stream made of stored blocks, when its header is
/// `78 01` and its Adler-32 trailer matches.
pub open spec fn unzlib_stored(z: Seq<u8>) -> Option<Seq<u8>> {
    if z.len() < 2 || z[0] != 0x78 || z[1] != 0x01 {
        None
    } else {
        match inflate_stored(z.skip(2)) {
            Some((d, n)) => if z.len() == 2 + n + 4 && be32_value(z.skip(2 + n)) == adler32_spec(d) as int {
                Some(d)
            } else {
                None
            },
            None => None,
        }
    }
}

/// Rows of `row_len` bytes each preceded by filter byte 0, joined back.
pub open spec fn unfilter(scan: Seq<u8>, row_len: nat, rows: nat) -> Option<Seq<u8>>
    decreases rows,
{
    if rows == 0 {
        if scan.len() == 0 { Some(Seq::empty()) } else { None }
    } else {
        let k = ((rows - 1) * (row_len + 1)) as int;
        if scan.len() != rows * (row_len + 1) || scan[k] != 0 {
            None
        } else {
            match unfilter(scan.take(k), row_len, (rows - 1) as nat) {
                Some(prefix) => Some(prefix + scan.subrange(k + 1, scan.len() as int)),
                None => None,
            }
        }
    }
}

/// The pixels carried by an IDAT payload of an image `w` pixels wide and
/// `h` rows high.
#[verifier::opaque]
pub open spec fn decode_pixels(w: int, h: int, idat: Seq<u8>) -> Option<(u32, u32, Seq<u8>)> {
    match unzlib_stored(idat) {
        Some(scan) => match unfilter(scan, (w * 3) as nat, h as nat) {
            Some(rgb) => Some((w as u32, h as u32, rgb)),
            None => None,
        },
        None => None,
    }
}

/// What follows the IHDR chunk: one IDAT chunk, then IEND ending the file.
#[verifier::opaque]
pub open spec fn decode_after_header(w: int, h: int, rest: Seq<u8>) -> Option<(u32, u32, Seq<u8>)> {
    match parse_chunk(rest) {
        Some((k2, idat, n2)) => if k2 != idat_tag() {
            None
        } else {
            match parse_chunk(rest.skip(n2)) {
                Some((k3, iend, n3)) => if k3 != iend_tag() || iend.len() != 0 || rest.skip(n2).len() != n3 {
                    None
                } else {
                    decode_pixels(w, h, idat)
                },
                None => None,
            }
        },
        None => None,
    }
}

/// The chunks after the signature, starting with an IHDR for 8-bit RGB.
#[verifier::opaque]
pub open spec fn decode_chunks(rest: Seq<u8>) -> Option<(u32, u32, Seq<u8>)> {
    match parse_chunk(rest) {
        Some((k1, ihdr, n1)) => if k1 != ihdr_tag() || ihdr.len() != 13 || ihdr.skip(8) != seq![8u8, 2, 0, 0, 0] {
            None
        } else {
            decode_after_header(be32_value(ihdr.take(4)), be32_value(ihdr.subrange(4, 8)), rest.skip(n1))
        },
        None => None,
    }
}

/// Reads an 8-bit RGB, non-interlaced PNG made of one IHDR, one IDAT of
/// stored deflate blocks with unfiltered rows, and IEND: its size and pixels.
pub open spec fn decode_png(bytes: Seq<u8>) -> Option<(u32, u32, Seq<u8>)> {
    if bytes.len() < 8 || bytes.take(8) != png_signature() {
        None
    } else {
        decode_chunks(bytes.skip(8))
    }
}

#[verifier::rlimit(30)]
proof fn lemma_be32_value(x: u32)
    ensures
        be32(x).len() == 4,
        be32_value(be32(x)) == x,
{
    let b0 = x / 0x1000000;
    let r0 = x % 0x1000000;
    let b1 = r0 / 0x10000;
    let r1 = r0 % 0x10000;
    let b2 = r1 / 0x100;
    let b3 = r1 % 0x100;
    vstd::arithmetic::div_mod::lemma_fundamental_div_mod(x as int, 0x1000000);
    vstd::arithmetic::div_mod::lemma_fundamental_div_mod(r0 as int, 0x10000);
    vstd::arithmetic::div_mod::lemma_fundamental_div_mod(r1 as int, 0x100);
    assert((x / 0x10000) % 256 == b1) by (nonlinear_arith)
        requires r0 == x % 0x1000000, b1 == r0 / 0x10000;
    assert((x / 0x100) % 256 == b2) by (nonlinear_arith)
        requires r0 == x % 0x1000000, r1 == r0 % 0x10000, b2 == r1 / 0x100;
    assert(x % 256 == b3) by (nonlinear_arith)
        requires r0 == x % 0x1000000, r1 == r0 % 0x10000, b3 == r1 % 0x100;
}

#[verifier::rlimit(30)]
proof fn lemma_parse_chunk(kind: Seq<u8>, data: Seq<u8>, rest: Seq<u8>)
    requires
        kind.len() == 4,
        data.len() <= u32::MAX,
    ensures
        parse_chunk(png_chunk(kind, data) + rest) == Some((kind, data, 12 + data.len() as int)),
        png_chunk(kind, data).len() == 12 + data.len(),
{
    reveal(parse_chunk);
    let c = png_chunk(kind, data) + rest;
    let n = data.len() as int;
    lemma_be32_value(n as u32);
    lemma_be32_value(crc32_spec(kind + data));
    assert(c.take(4) =~= be32(n as u32));
    assert(c.subrange(4, 8) =~= kind);
    assert(c.subrange(8, 8 + n) =~= data);
    assert(c.subrange(8 + n, 12 + n) =~= be32(crc32_spec(kind + data)));
}

proof fn lemma_le16_value(x: u16)
    ensures
        le16(x).len() == 2,
        le16_value(le16(x)[0], le16(x)[1]) == x,
{
    assert(x == (x % 256) + (x / 256) * 256);
}

/// The header of one stored block followed by anything reads back as that
/// block's kind, payload and size.
#[verifier::rlimit(30)]
proof fn lemma_stored_block_layout(is_final: bool, block: Seq<u8>, rest: Seq<u8>)
    requires
        block.len() <= 65535,
    ensures
        ({
            let b = stored_block(is_final, block) + rest;
            &&& b.len() >= 5 + block.len()
            &&& b[0] == (if is_final { 1u8 } else { 0u8 })
            &&& le16_value(b[1], b[2]) == block.len()
            &&& le16_value(b[3], b[4]) == 65535 - block.len()
            &&& b.subrange(5, 5 + block.len() as int) == block
            &&& b.skip(5 + block.len() as int) == rest
        }),
{
    let n = block.len() as int;
    let b = stored_block(is_final, block) + rest;
    lemma_le16_value(n as u16);
    lemma_le16_value((65535 - n) as u16);
    assert(b.subrange(5, 5 + n) =~= block);
    assert(b.skip(5 + n) =~= rest);
}

#[verifier::rlimit(30)]
proof fn lemma_inflate_stored(d: Seq<u8>, rest: Seq<u8>)
    ensures
        inflate_stored(stored_blocks(d) + rest) == Some((d, stored_blocks(d).len() as int)),
    decreases d.len(),
{
    if d.len() <= 65535 {
        lemma_stored_block_layout(true, d, rest);
    } else {
        let head = d.take(65535);
        let tail = d.skip(65535);
        lemma_inflate_stored(tail, rest);
        let b = stored_blocks(d) + rest;
        assert(b =~= stored_block(false, head) + (stored_blocks(tail) + rest));
        lemma_stored_block_layout(false, head, stored_blocks(tail) + rest);
        assert(head + tail =~= d);
    }
}

#[verifier::rlimit(30)]
proof fn lemma_unfilter(rgb: Seq<u8>, row_len: nat, rows: nat)
    requires
        rgb.len() == rows * row_len,
    ensures
        scanlines(rgb, row_len, rows).len() == rows * (row_len + 1),
        unfilter(scanlines(rgb, row_len, rows), row_len, rows) == Some(rgb),
    decreases rows,
{
    if rows == 0 {
        assert(rows * row_len == 0) by (nonlinear_arith)
            requires rows == 0;
        assert(rgb =~= Seq::<u8>::empty());
    } else {
        let r1 = (rows - 1) as nat;
        let prev = rgb.take((r1 * row_len) as int);
        assert(r1 * row_len + row_len == rows * row_len) by (nonlinear_arith)
            requires r1 == rows - 1;
        assert(r1 * row_len <= rows * row_len) by (nonlinear_arith)
            requires r1 <= rows;
        assert(prev.len() == r1 * row_len);
        lemma_unfilter(prev, row_len, r1);
        assert(scanlines(prev, row_len, r1) =~= scanlines(rgb, row_len, r1)) by {
            lemma_scanlines_prefix(rgb, prev, row_len, r1);
        }
        let s = scanlines(rgb, row_len, rows);
        let k = (r1 * (row_len + 1)) as int;
        assert(rows * (row_len + 1) == k + 1 + row_len) by (nonlinear_arith)
            requires k == r1 * (row_len + 1), r1 == rows - 1;
        assert(s.take(k) =~= scanlines(rgb, row_len, r1));
        assert(s[k] == 0);
        assert(s.subrange(k + 1, s.len() as int) =~= rgb.subrange((r1 * row_len) as int, (rows * row_len) as int));
        assert(prev + rgb.subrange((r1 * row_len) as int, (rows * row_len) as int) =~= rgb);
    }
}

#[verifier::rlimit(30)]
proof fn lemma_scanlines_prefix(rgb: Seq<u8>, prev: Seq<u8>, row_len: nat, rows: nat)
    requires
        prev.len() == rows * row_len,
        rgb.len() >= prev.len(),
        prev == rgb.take(prev.len() as int),
    ensures
        scanlines(prev, row_len, rows) == scanlines(rgb, row_len, rows),
    decreases rows,
{
    if rows > 0 {
        let r1 = (rows - 1) as nat;
        assert(r1 * row_len + row_len == rows * row_len) by (nonlinear_arith)
            requires r1 == rows - 1;
        assert(r1 * row_len <= rows * row_len) by (nonlinear_arith)
            requires r1 <= rows;
        assert(prev.take((r1 * row_len) as int) =~= rgb.take((r1 * row_len) as int));
        lemma_scanlines_prefix(rgb, prev.take((r1 * row_len) as int), row_len, r1);
        lemma_scanlines_prefix(prev, prev.take((r1 * row_len) as int), row_len, r1);
        assert(prev.subrange((r1 * row_len) as int, (rows * row_len) as int) =~= rgb.subrange((r1 * row_len) as int, (rows * row_len) as int));
    }
}

#[verifier::rlimit(30)]
proof fn lemma_unzlib(scan: Seq<u8>)
    ensures
        unzlib_stored(zlib_stored(scan)) == Some(scan),
{
    let z = zlib_stored(scan);
    let sb = stored_blocks(scan);
    let tr = be32(adler32_spec(scan));
    lemma_be32_value(adler32_spec(scan));
    assert(z =~= seq![0x78u8, 0x01] + (sb + tr));
    assert(z[0] == 0x78 && z[1] == 0x01);
    assert(z.skip(2) =~= sb + tr);
    lemma_inflate_stored(scan, tr);
    assert(inflate_stored(z.skip(2)) == Some((scan, sb.len() as int)));
    assert(z.len() == 2 + sb.len() + 4);
    assert(z.skip(2 + sb.len() as int) =~= tr);
}

#[verifier::rlimit(40)]
proof fn lemma_after_header(width: u32, height: u32, z: Seq<u8>)
    requires
        z.len() <= u32::MAX,
    ensures
        decode_after_header(width as int, height as int, png_chunk(idat_tag(), z) + png_chunk(iend_tag(), Seq::empty()))
            == decode_pixels(width as int, height as int, z),
{
    reveal(decode_after_header);
    let c2 = png_chunk(idat_tag(), z);
    let c3 = png_chunk(iend_tag(), Seq::empty());
    lemma_parse_chunk(idat_tag(), z, c3);
    assert((c2 + c3).skip(c2.len() as int) =~= c3);
    lemma_parse_chunk(iend_tag(), Seq::empty(), Seq::empty());
    assert(c3 + Seq::<u8>::empty() =~= c3);
}

#[verifier::rlimit(30)]
proof fn lemma_header_chunk(width: u32, height: u32, tail: Seq<u8>)
    ensures
        decode_chunks(png_chunk(ihdr_tag(), ihdr_data(width, height)) + tail)
            == decode_after_header(width as int, height as int, tail),
{
    reveal(decode_chunks);
    let ihdr = ihdr_data(width, height);
    let c1 = png_chunk(ihdr_tag(), ihdr);
    lemma_be32_value(width);
    lemma_be32_value(height);
    assert(ihdr.len() == 13);
    lemma_parse_chunk(ihdr_tag(), ihdr, tail);
    assert(ihdr.take(4) =~= be32(width));
    assert(ihdr.subrange(4, 8) =~= be32(height));
    assert(ihdr.skip(8) =~= seq![8u8, 2, 0, 0, 0]);
    assert((c1 + tail).skip(c1.len() as int) =~= tail);
}

#[verifier::rlimit(30)]
proof fn lemma_png_container(width: u32, height: u32, z: Seq<u8>)
    requires
        z.len() <= u32::MAX,
    ensures
        decode_png(
            png_signature() + png_chunk(ihdr_tag(), ihdr_data(width, height)) + png_chunk(idat_tag(), z) + png_chunk(
                iend_tag(),
                Seq::empty(),
            ),
        ) == decode_pixels(width as int, height as int, z),
{
    let c1 = png_chunk(ihdr_tag(), ihdr_data(width, height));
    let tail = png_chunk(idat_tag(), z) + png_chunk(iend_tag(), Seq::empty());
    let bytes = png_signature() + c1 + png_chunk(idat_tag(), z) + png_chunk(iend_tag(), Seq::empty());
    assert(bytes =~= png_signature() + (c1 + tail));
    assert(bytes.take(8) =~= png_signature());
    assert(bytes.skip(8) =~= c1 + tail);
    lemma_header_chunk(width, height, tail);
    lemma_after_header(width, height, z);
}

/// Reading back an encoded screenshot gives the image that was written:
/// its width, height and every pixel byte.
pub proof fn law_png_roundtrip(width: u32, height: u32, rgb: Seq<u8>)
    requires
        rgb.len() == width * height * 3,
        zlib_stored(scanlines(rgb, (width * 3) as nat, height as nat)).len() <= u32::MAX,
    ensures
        decode_png(png_bytes(width, height, rgb)) == Some((width, height, rgb)),
{
    reveal(decode_pixels);
    let rl = (width * 3) as nat;
    let h = height as nat;
    assert(rgb.len() == h * rl) by (nonlinear_arith)
        requires rgb.len() == width * height * 3, rl == width * 3, h == height;
    let scan = scanlines(rgb, rl, h);
    lemma_png_container(width, height, zlib_stored(scan));
    lemma_unzlib(scan);
    lemma_unfilter(rgb, rl, h);
}

} // verus!
