use terminal_cam::screenshot::{adler32, crc32, encode_png, screenshot_name, write_stored_deflate_blocks, PngError};

#[test]
fn writes_png_container() {
    let bytes = encode_png(1, 1, &[255, 0, 0]).unwrap();
    assert!(bytes.starts_with(b"\x89PNG\r\n\x1a\n"));
    assert!(bytes.windows(4).any(|window| window == b"IHDR"));
    assert!(bytes.windows(4).any(|window| window == b"IDAT"));
    assert!(bytes.windows(4).any(|window| window == b"IEND"));
}

#[test]
fn checksums_match_reference_values() {
    assert_eq!(crc32(b"123456789"), 0xCBF4_3926);
    assert_eq!(crc32(b""), 0);
    assert_eq!(crc32(b"IEND"), 0xAE42_6082);
    assert_eq!(adler32(b"Wikipedia"), 0x11E6_0398);
    assert_eq!(adler32(b""), 1);
}

#[test]
fn one_pixel_png_exact_bytes() {
    let bytes = encode_png(1, 1, &[255, 0, 0]).unwrap();
    // Signature, IHDR (25 bytes), IDAT (12 + 2 + 5 + 4 + 4 = 27), IEND (12).
    assert_eq!(bytes.len(), 8 + 25 + 27 + 12);
    assert_eq!(&bytes[8..16], &[0, 0, 0, 13, b'I', b'H', b'D', b'R']);
    assert_eq!(&bytes[16..29], &[0, 0, 0, 1, 0, 0, 0, 1, 8, 2, 0, 0, 0]);
    let idat = &bytes[33..60];
    assert_eq!(&idat[0..8], &[0, 0, 0, 15, b'I', b'D', b'A', b'T']);
    assert_eq!(&idat[8..23], &[0x78, 0x01, 1, 4, 0, 0xfb, 0xff, 0, 255, 0, 0, 0x03, 0x01, 0x01, 0x00][..]);
    assert_eq!(&bytes[60..], &[0, 0, 0, 0, b'I', b'E', b'N', b'D', 0xAE, 0x42, 0x60, 0x82]);
}

#[test]
fn wrong_buffer_length_is_rejected() {
    assert_eq!(encode_png(2, 2, &[0; 11]).err(), Some(PngError::BufferLength));
    assert!(encode_png(2, 2, &[0; 12]).is_ok());
}

#[test]
fn stored_blocks_split_at_65535() {
    let data = vec![7u8; 65535 + 10];
    let mut out = Vec::new();
    write_stored_deflate_blocks(&mut out, &data);
    assert_eq!(out.len(), 5 + 65535 + 5 + 10);
    assert_eq!(&out[0..5], &[0, 0xff, 0xff, 0, 0]);
    assert_eq!(&out[65540..65545], &[1, 10, 0, 0xf5, 0xff]);
    let mut empty = Vec::new();
    write_stored_deflate_blocks(&mut empty, &[]);
    assert_eq!(empty, vec![1, 0, 0, 0xff, 0xff]);
}

#[test]
fn screenshot_names_pad_millis() {
    assert_eq!(screenshot_name(1700000000, 7), "terminal-cam-1700000000-007.png");
    assert_eq!(screenshot_name(0, 999), "terminal-cam-0-999.png");
}

fn read_be32(b: &[u8]) -> u32 {
    u32::from_be_bytes([b[0], b[1], b[2], b[3]])
}

#[test]
fn png_reads_back_the_image() {
    let width = 3u32;
    let height = 2u32;
    let rgb: Vec<u8> = (0..18u8).map(|i| i * 13).collect();
    let bytes = encode_png(width, height, &rgb).unwrap();

    let ihdr_len = read_be32(&bytes[8..12]) as usize;
    let ihdr = &bytes[16..16 + ihdr_len];
    assert_eq!(read_be32(&ihdr[0..4]), width);
    assert_eq!(read_be32(&ihdr[4..8]), height);

    let idat_at = 16 + ihdr_len + 4;
    let idat_len = read_be32(&bytes[idat_at..idat_at + 4]) as usize;
    assert_eq!(&bytes[idat_at + 4..idat_at + 8], b"IDAT");
    let zlib = &bytes[idat_at + 8..idat_at + 8 + idat_len];
    assert_eq!(&zlib[0..2], &[0x78, 0x01]);
    let mut pos = 2;
    let mut scan = Vec::new();
    loop {
        let is_final = zlib[pos] == 1;
        let len = u16::from_le_bytes([zlib[pos + 1], zlib[pos + 2]]) as usize;
        scan.extend_from_slice(&zlib[pos + 5..pos + 5 + len]);
        pos += 5 + len;
        if is_final {
            break;
        }
    }
    assert_eq!(read_be32(&zlib[pos..pos + 4]), adler32(&scan));

    let row_len = width as usize * 3;
    let mut pixels = Vec::new();
    for row in scan.chunks(row_len + 1) {
        assert_eq!(row[0], 0);
        pixels.extend_from_slice(&row[1..]);
    }
    assert_eq!(pixels, rgb);
}
