use ota_pack::container::{
    build_time_text, build_unsigned, decode, decode_with_checksum, encode, pad_payload,
    patch_checksum, trim_trailing_zeros, MAX_PAYLOAD_LEN, PAD_BYTE,
};
use ota_pack::header::{HeaderField, OtaError, OtaHeader, HEADER_LEN, MAGIC_WORD};

const TS: u64 = 1_700_000_000;

fn x25(b: &[u8]) -> u16 {
    crc::Crc::<u16>::new(&crc::CRC_16_IBM_SDLC).checksum(b)
}

#[test]
fn demo_scenario() {
    let c = encode(b"demo", b"abc123", &[0x01, 0x02, 0x03], TS).unwrap();
    assert_eq!(c.len(), 520);
    assert_eq!(&c[512..], &[0x01, 0x02, 0x03, 0xFF, 0xFF, 0xFF, 0xFF, 0xFF]);
    assert_eq!(&c[0..4], &MAGIC_WORD.to_le_bytes());
    assert_eq!(&c[62..66], &8u32.to_le_bytes());
    assert_eq!(&c[54..62], &TS.to_le_bytes());
    assert_eq!(&c[38..43], b"demo\0");
    assert_eq!(&c[6..13], b"abc123\0");
    let s = decode(&c).unwrap();
    assert_eq!(s.project_name, b"demo".to_vec());
    assert_eq!(s.version, b"abc123".to_vec());
    assert_eq!(s.size, 8);
    assert_eq!(s.timestamp, TS);
    assert_eq!(s.build_time, "2023-11-14T22:13:20+00:00");
}

#[test]
fn checksum_is_x25_of_bytes_from_six() {
    let c = encode(b"demo", b"abc123", &[0x01, 0x02, 0x03], TS).unwrap();
    let crc = x25(&c[6..]);
    assert_eq!(&c[4..6], &crc.to_le_bytes());
    assert_ne!(crc, 0);
}

#[test]
fn round_trip_various_inputs() {
    let names: [&[u8]; 4] = [b"", b"a", b"demo", b"exactly15bytes!"];
    let versions: [&[u8]; 4] = [b"", b"1", b"abc123-dirty", b"0123456789abcdef0123456789abcde"];
    for (i, name) in names.iter().enumerate() {
        for (j, ver) in versions.iter().enumerate() {
            let len = i * 5 + j * 3;
            let payload: Vec<u8> = (0..len).map(|k| (k * 7 + 1) as u8).collect();
            let c = encode(name, ver, &payload, TS + len as u64).unwrap();
            let s = decode(&c).unwrap();
            assert_eq!(s.project_name, name.to_vec());
            assert_eq!(s.version, ver.to_vec());
            assert_eq!(s.size as usize, (len + 7) / 8 * 8);
            assert_eq!(s.timestamp, TS + len as u64);
        }
    }
}

#[test]
fn padding_lengths_and_fill() {
    for len in 0..=17usize {
        let payload: Vec<u8> = vec![0x11; len];
        let p = pad_payload(&payload);
        let expected = (len + 7) / 8 * 8;
        assert_eq!(p.len(), expected);
        assert_eq!(&p[..len], &payload[..]);
        assert!(p[len..].iter().all(|b| *b == PAD_BYTE));
        let c = encode(b"p", b"v", &payload, TS).unwrap();
        assert_eq!(c.len(), HEADER_LEN + expected);
        assert_eq!(&c[HEADER_LEN..], &p[..]);
    }
}

#[test]
fn aligned_payload_gets_no_padding() {
    let payload = [0u8; 16];
    assert_eq!(pad_payload(&payload), payload.to_vec());
    assert_eq!(pad_payload(&[]), Vec::<u8>::new());
}

#[test]
fn every_flipped_bit_from_six_on_is_a_checksum_mismatch() {
    let c = encode(b"demo", b"abc123", &[0x01, 0x02, 0x03], TS).unwrap();
    let stored = u16::from_le_bytes([c[4], c[5]]);
    for i in 6..c.len() {
        for bit in 0..8 {
            let mut d = c.clone();
            d[i] ^= 1 << bit;
            match decode(&d) {
                Err(OtaError::ChecksumMismatch { expected, actual }) => {
                    assert_eq!(expected, stored);
                    assert_eq!(actual, x25(&d[6..]));
                }
                other => panic!("byte {} bit {}: {:?}", i, bit, other.map(|s| s.size)),
            }
        }
    }
}

#[test]
fn flipped_magic_bit_is_bad_magic() {
    let c = encode(b"demo", b"abc123", &[0x01, 0x02, 0x03], TS).unwrap();
    for i in 0..4 {
        for bit in 0..8 {
            let mut d = c.clone();
            d[i] ^= 1 << bit;
            assert_eq!(decode(&d).map(|s| s.size), Err(OtaError::BadMagic));
        }
    }
}

#[test]
fn flipped_checksum_field_bit_is_a_mismatch() {
    let c = encode(b"demo", b"abc123", &[0x01, 0x02, 0x03], TS).unwrap();
    let actual = x25(&c[6..]);
    for i in 4..6 {
        for bit in 0..8 {
            let mut d = c.clone();
            d[i] ^= 1 << bit;
            let expected = u16::from_le_bytes([d[4], d[5]]);
            assert_eq!(
                decode(&d).map(|s| s.size),
                Err(OtaError::ChecksumMismatch { expected, actual })
            );
        }
    }
}

#[test]
fn wrong_magic_with_valid_checksum_is_bad_magic() {
    let mut c = encode(b"demo", b"abc123", &[0x01, 0x02, 0x03], TS).unwrap();
    c[0..4].copy_from_slice(&0x1234_5678u32.to_le_bytes());
    // The checksum does not cover the magic word, so it still checks.
    assert_eq!(u16::from_le_bytes([c[4], c[5]]), x25(&c[6..]));
    assert_eq!(decode(&c).map(|s| s.size), Err(OtaError::BadMagic));
}

#[test]
fn length_boundary() {
    assert_eq!(decode(&[0u8; 511]).map(|s| s.size), Err(OtaError::TooShort));
    assert_eq!(decode(&[]).map(|s| s.size), Err(OtaError::TooShort));
    assert_eq!(decode(&[0u8; 512]).map(|s| s.size), Err(OtaError::BadMagic));
    assert_eq!(decode(&[0xA5u8; 512]).map(|s| s.size), Err(OtaError::BadMagic));
}

#[test]
fn header_only_container_is_valid() {
    let c = encode(b"x", b"y", &[], TS).unwrap();
    assert_eq!(c.len(), 512);
    let s = decode(&c).unwrap();
    assert_eq!(s.size, 0);
}

#[test]
fn project_name_too_long() {
    assert_eq!(
        encode(b"sixteen-bytes-ab", b"v", &[1], TS),
        Err(OtaError::FieldTooLong(HeaderField::ProjectName))
    );
    assert!(encode(b"fifteen-bytes-a", b"v", &[1], TS).is_ok());
}

#[test]
fn version_too_long() {
    let long = [b'a'; 32];
    assert_eq!(
        encode(b"demo", &long, &[1], TS),
        Err(OtaError::FieldTooLong(HeaderField::Version))
    );
    assert!(encode(b"demo", &long[..31], &[1], TS).is_ok());
    // The project name is checked first.
    assert_eq!(
        build_unsigned(&[b'n'; 20], &long, &[1], TS),
        Err(OtaError::FieldTooLong(HeaderField::ProjectName))
    );
}

#[test]
fn unsigned_container_has_zero_checksum_then_patch() {
    let mut u = build_unsigned(b"demo", b"abc123", &[1, 2, 3], TS).unwrap();
    assert_eq!(&u[4..6], &[0, 0]);
    assert!(u[66..512].iter().all(|b| *b == 0));
    patch_checksum(&mut u, 0xBEEF);
    assert_eq!(&u[4..6], &[0xEF, 0xBE]);
    let c = encode(b"demo", b"abc123", &[1, 2, 3], TS).unwrap();
    assert_eq!(&u[6..], &c[6..]);
}

#[test]
fn decode_with_given_checksum() {
    let c = encode(b"demo", b"abc123", &[1, 2, 3], TS).unwrap();
    let stored = u16::from_le_bytes([c[4], c[5]]);
    assert!(decode_with_checksum(&c, stored).is_ok());
    assert_eq!(
        decode_with_checksum(&c, stored ^ 1).map(|s| s.size),
        Err(OtaError::ChecksumMismatch { expected: stored, actual: stored ^ 1 })
    );
}

#[test]
fn header_serialize_parse() {
    let h = OtaHeader {
        magic_word: MAGIC_WORD,
        crc: 0x1234,
        version: vec![7u8; 32],
        project_name: vec![9u8; 16],
        timestamp: 0x0102_0304_0506_0708,
        size: 0xA0B0_C0D0,
        reserved: vec![3u8; 446],
    };
    let b = h.serialize();
    assert_eq!(b.len(), 512);
    assert_eq!(&b[0..6], &[0x32, 0x54, 0xCD, 0xAB, 0x34, 0x12]);
    assert_eq!(&b[54..66], &[8, 7, 6, 5, 4, 3, 2, 1, 0xD0, 0xC0, 0xB0, 0xA0]);
    let p = OtaHeader::parse(&b).unwrap();
    assert_eq!(p.magic_word, h.magic_word);
    assert_eq!(p.crc, h.crc);
    assert_eq!(p.version, h.version);
    assert_eq!(p.project_name, h.project_name);
    assert_eq!(p.timestamp, h.timestamp);
    assert_eq!(p.size, h.size);
    assert_eq!(p.reserved, h.reserved);
    assert_eq!(OtaHeader::parse(&b[..511]).map(|h| h.size), Err(OtaError::TooShort));
}

#[test]
fn trailing_zeros_are_trimmed() {
    assert_eq!(trim_trailing_zeros(b"ab\0c\0\0"), b"ab\0c".to_vec());
    assert_eq!(trim_trailing_zeros(b"\0\0"), Vec::<u8>::new());
    assert_eq!(trim_trailing_zeros(b""), Vec::<u8>::new());
}

#[test]
fn build_time_rendering() {
    assert_eq!(build_time_text(0), "1970-01-01T00:00:00+00:00");
    assert_eq!(build_time_text(u64::MAX), "1969-12-31T23:59:59+00:00");
    assert_eq!(build_time_text(i64::MAX as u64), "Unknown");
}

#[test]
fn largest_payload_fits_size_field() {
    assert_eq!(MAX_PAYLOAD_LEN as u64, u32::MAX as u64 - 7);
    assert_eq!(MAX_PAYLOAD_LEN % 8, 0);
}
