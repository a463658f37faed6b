use rsp_client::endian::{push_u16_le, push_u32_le, push_u64_le, u16_from_le, u32_from_le, u64_from_le};
use rsp_client::frame::{Frame, FLAG_COMPRESSED, HEADER_LEN};
use rsp_client::utils::{compress, decimal, hash, pack, session_id};

#[test]
fn pack_16_bit_is_two_little_endian_bytes_per_sample() {
    let out = pack(&[1, 258, -1, -2], 16).unwrap();
    assert_eq!(out, vec![1, 0, 2, 1, 0xff, 0xff, 0xfe, 0xff]);
}

#[test]
fn pack_16_bit_truncates_to_the_low_16_bits() {
    let out = pack(&[0x0001_2345, 65536, -65537], 16).unwrap();
    assert_eq!(out, vec![0x45, 0x23, 0, 0, 0xff, 0xff]);
}

#[test]
fn pack_24_bit_is_the_low_three_bytes() {
    let out = pack(&[0x0012_3456, -1, 0x7f00_0001, i32::MIN], 24).unwrap();
    assert_eq!(out, vec![0x56, 0x34, 0x12, 0xff, 0xff, 0xff, 0x01, 0x00, 0x00, 0, 0, 0]);
}

#[test]
fn pack_of_no_samples_is_empty() {
    assert_eq!(pack(&[], 16), Some(vec![]));
    assert_eq!(pack(&[], 24), Some(vec![]));
}

#[test]
fn pack_refuses_other_bit_depths() {
    assert_eq!(pack(&[1, 2, 3], 8), None);
    assert_eq!(pack(&[1, 2, 3], 32), None);
    assert_eq!(pack(&[1, 2, 3], 0), None);
    assert_eq!(pack(&[], 17), None);
}

#[test]
fn pack_16_round_trips_samples_in_range() {
    let samples: Vec<i32> = vec![0, 1, -1, 32767, -32768, 12345, -12345];
    let out = pack(&samples, 16).unwrap();
    assert_eq!(out.len(), samples.len() * 2);
    for (i, s) in samples.iter().enumerate() {
        let back = i16::from_le_bytes([out[2 * i], out[2 * i + 1]]) as i32;
        assert_eq!(back, *s);
    }
}

#[test]
fn pack_24_round_trips_samples_in_range() {
    let samples: Vec<i32> = vec![0, 1, -1, 8_388_607, -8_388_608, 1_000_000, -1_000_000];
    let out = pack(&samples, 24).unwrap();
    assert_eq!(out.len(), samples.len() * 3);
    for (i, s) in samples.iter().enumerate() {
        let b = [out[3 * i], out[3 * i + 1], out[3 * i + 2]];
        let sign = if b[2] >= 128 { 0xff } else { 0 };
        let back = i32::from_le_bytes([b[0], b[1], b[2], sign]);
        assert_eq!(back, *s);
    }
}

#[test]
fn pack_keeps_the_low_bits_of_samples_out_of_range() {
    let samples: Vec<i32> = vec![i32::MAX, i32::MIN, 0x0123_4567, -0x0123_4567];
    let out16 = pack(&samples, 16).unwrap();
    let out24 = pack(&samples, 24).unwrap();
    for (i, s) in samples.iter().enumerate() {
        let low16 = u16::from_le_bytes([out16[2 * i], out16[2 * i + 1]]) as u32;
        assert_eq!(low16, (*s as u32) & 0xffff);
        let low24 = u32::from_le_bytes([out24[3 * i], out24[3 * i + 1], out24[3 * i + 2], 0]);
        assert_eq!(low24, (*s as u32) & 0xff_ffff);
    }
}

#[test]
fn little_endian_helpers_write_and_read() {
    let mut out = vec![9u8];
    push_u16_le(&mut out, 0x1234);
    push_u32_le(&mut out, 0xdead_beef);
    push_u64_le(&mut out, 0x0102_0304_0506_0708);
    assert_eq!(
        out,
        vec![9, 0x34, 0x12, 0xef, 0xbe, 0xad, 0xde, 8, 7, 6, 5, 4, 3, 2, 1]
    );
    assert_eq!(u16_from_le(0x34, 0x12), 0x1234);
    assert_eq!(u32_from_le(0xef, 0xbe, 0xad, 0xde), 0xdead_beef);
    assert_eq!(u64_from_le(&[8, 7, 6, 5, 4, 3, 2, 1]), 0x0102_0304_0506_0708);
    assert_eq!(u64_from_le(&[0xff; 8]), u64::MAX);
}

#[test]
fn hash_is_the_first_half_of_murmur3_under_seed_zero() {
    for name in [&b""[..], b"a", b"stream-01", b"a much longer stream name, over sixteen bytes"] {
        assert_eq!(hash(name), mur3::murmurhash3_x64_128(name, 0).0);
    }
    assert_ne!(hash(b"left"), hash(b"right"));
    assert_eq!(hash(b"same"), hash(b"same"));
}

#[test]
fn session_ids_are_sixteen_bytes_and_differ() {
    let a = session_id();
    let b = session_id();
    assert_eq!(a.len(), 16);
    assert_ne!(a, b);
    // version 4, RFC variant
    assert_eq!(a[6] >> 4, 4);
    assert_eq!(a[8] >> 6, 2);
}

#[test]
fn compress_gives_a_zstd_frame_of_the_data() {
    let data: Vec<u8> = (0..4000u32).map(|i| (i % 7) as u8).collect();
    let out = compress(&data, 3).unwrap();
    assert_ne!(out, data);
    assert!(out.len() < data.len());
    assert_eq!(zstd::bulk::decompress(&out, data.len()).unwrap(), data);
    assert_eq!(out, zstd::bulk::compress(&data, 3).unwrap());
}

#[test]
fn compress_of_nothing_is_still_a_frame() {
    let out = compress(&[], 1).unwrap();
    assert!(!out.is_empty());
    assert_eq!(zstd::bulk::decompress(&out, 16).unwrap(), Vec::<u8>::new());
}

#[test]
fn decimal_numerals() {
    assert_eq!(decimal(0), "0");
    assert_eq!(decimal(7), "7");
    assert_eq!(decimal(10), "10");
    assert_eq!(decimal(44100), "44100");
    assert_eq!(decimal(1234567890), "1234567890");
    assert_eq!(decimal(u64::MAX), "18446744073709551615");
}

#[test]
fn frame_layout_is_fixed() {
    let id: [u8; 16] = [1, 2, 3, 4, 5, 6, 7, 8, 9, 10, 11, 12, 13, 14, 15, 16];
    let frame = Frame::from_parts(id, 0x1122_3344_5566_7788, false);
    let block = [0xaau8, 0xbb, 0xcc];
    let bytes = frame.pack(&block);
    assert_eq!(bytes.len(), HEADER_LEN + 3);
    assert_eq!(&bytes[0..3], b"rsp");
    assert_eq!(&bytes[3..19], &id);
    assert_eq!(&bytes[19..27], &[0x88, 0x77, 0x66, 0x55, 0x44, 0x33, 0x22, 0x11]);
    assert_eq!(&bytes[27..31], &crc32c::crc32c(&block).to_le_bytes());
    assert_eq!(&bytes[31..33], &[3, 0]);
    assert_eq!(bytes[33], 0);
    assert_eq!(&bytes[34..], &block);
}

#[test]
fn frame_checksum_is_the_crc32c_of_the_block() {
    let frame = Frame::new("s", false);
    for block in [&b""[..], b"1", b"123456789", &[0u8; 1000][..]] {
        let bytes = frame.pack(block);
        let stored = u32::from_le_bytes([bytes[27], bytes[28], bytes[29], bytes[30]]);
        assert_eq!(stored, crc32c::crc32c(block));
    }
    // the standard test vector of CRC-32C
    let bytes = frame.pack(b"123456789");
    assert_eq!(&bytes[27..31], &0xe306_9283u32.to_le_bytes());
}

#[test]
fn frame_of_an_empty_block_is_the_header() {
    let frame = Frame::from_parts([0; 16], 0, true);
    let bytes = frame.pack(&[]);
    assert_eq!(bytes.len(), HEADER_LEN);
    assert_eq!(&bytes[27..31], &[0, 0, 0, 0]);
    assert_eq!(&bytes[31..33], &[0, 0]);
    assert_eq!(bytes[33], FLAG_COMPRESSED);
}

#[test]
fn frame_length_field_holds_the_low_16_bits() {
    let frame = Frame::from_parts([7; 16], 1, false);
    let block = vec![5u8; 65535];
    let bytes = frame.pack(&block);
    assert_eq!(&bytes[31..33], &[0xff, 0xff]);
    let block = vec![5u8; 65536 + 258];
    let bytes = frame.pack(&block);
    assert_eq!(&bytes[31..33], &[2, 1]);
    assert_eq!(bytes.len(), HEADER_LEN + 65536 + 258);
}

#[test]
fn frame_new_hashes_the_name_and_sets_the_flag() {
    let plain = Frame::new("stream-a", false);
    let packed = Frame::new("stream-a", true);
    assert_eq!(plain.hash(), mur3::murmurhash3_x64_128(b"stream-a", 0).0);
    assert_eq!(packed.hash(), plain.hash());
    assert_eq!(plain.flags(), 0);
    assert_eq!(packed.flags(), 1);
    assert_ne!(plain.session_id(), packed.session_id());
    assert_ne!(Frame::new("stream-b", false).hash(), plain.hash());
}

#[test]
fn frames_of_one_session_share_identity() {
    let frame = Frame::new("x", false);
    let a = frame.pack(b"first");
    let b = frame.pack(b"second block");
    assert_eq!(&a[0..27], &b[0..27]);
    assert_eq!(&a[3..19], &frame.session_id());
}

#[test]
fn frame_encode_writes_the_checksum_it_is_given() {
    let frame = Frame::from_parts([0xab; 16], 2, true);
    let bytes = frame.encode(&[1, 2], 0x0403_0201);
    let mut want = b"rsp".to_vec();
    want.extend_from_slice(&[0xab; 16]);
    want.extend_from_slice(&[2, 0, 0, 0, 0, 0, 0, 0]);
    want.extend_from_slice(&[1, 2, 3, 4]);
    want.extend_from_slice(&[2, 0]);
    want.push(1);
    want.extend_from_slice(&[1, 2]);
    assert_eq!(bytes, want);
    assert_eq!(frame.pack(&[1, 2]), frame.encode(&[1, 2], crc32c::crc32c(&[1, 2])));
}
