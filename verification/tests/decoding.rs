use rmp::encode::{
    write_array_len, write_bin, write_bool, write_f64, write_nil, write_sint, write_str, write_u64,
};
use rsp_client::error::Error;
use rsp_client::pack::{
    decode, list_of, take, to_c64v, to_s16v, to_s32v, to_u16v, to_u32v, unpack, Types,
};

fn response(tag: &str, elements: u32) -> Vec<u8> {
    let mut buf = Vec::new();
    write_array_len(&mut buf, elements).unwrap();
    write_str(&mut buf, tag).unwrap();
    buf
}

fn blob_response(tag: &str, data: &[u8]) -> Vec<u8> {
    let mut buf = response(tag, 2);
    write_bin(&mut buf, data).unwrap();
    buf
}

#[test]
fn int_42_decodes_to_int() {
    let mut buf = response("int", 2);
    write_sint(&mut buf, 42).unwrap();
    assert_eq!(unpack(&buf), Ok(Types::Int(42)));
}

#[test]
fn ints_of_every_width_decode() {
    for v in [0i64, -1, 127, -32, -33, 255, -129, 65535, -40000, 1 << 40, i64::MIN, i64::MAX] {
        let mut buf = response("int", 2);
        write_sint(&mut buf, v).unwrap();
        assert_eq!(unpack(&buf), Ok(Types::Int(v)));
    }
}

#[test]
fn int_out_of_range_is_malformed() {
    let mut buf = response("int", 2);
    write_u64(&mut buf, u64::MAX).unwrap();
    assert_eq!(unpack(&buf), Err(Error::Malformed));
}

#[test]
fn error_response_is_a_failure_with_the_servers_text() {
    let mut buf = response("error", 2);
    write_str(&mut buf, "bad stream").unwrap();
    let r = unpack(&buf);
    assert_eq!(r, Err(Error::Server("bad stream".to_string())));
    assert!(r.unwrap_err().message().contains("bad stream"));
}

#[test]
fn list_is_reversed() {
    let mut buf = response("list", 4);
    write_str(&mut buf, "a").unwrap();
    write_str(&mut buf, "b").unwrap();
    write_str(&mut buf, "c").unwrap();
    assert_eq!(
        unpack(&buf),
        Ok(Types::List(vec![
            Types::Str("c".to_string()),
            Types::Str("b".to_string()),
            Types::Str("a".to_string()),
        ]))
    );
}

#[test]
fn list_of_one_string() {
    let mut buf = response("list", 2);
    write_str(&mut buf, "only").unwrap();
    assert_eq!(unpack(&buf), Ok(Types::List(vec![Types::Str("only".to_string())])));
}

#[test]
fn list_with_no_strings_is_empty() {
    let buf = response("list", 1);
    assert_eq!(unpack(&buf), Ok(Types::List(vec![])));
}

#[test]
fn list_reads_strings_to_the_end_of_the_buffer() {
    // the header announces two strings, three follow
    let mut buf = response("list", 3);
    write_str(&mut buf, "x").unwrap();
    write_str(&mut buf, "y").unwrap();
    write_str(&mut buf, "z").unwrap();
    assert_eq!(
        unpack(&buf),
        Ok(Types::List(vec![
            Types::Str("z".to_string()),
            Types::Str("y".to_string()),
            Types::Str("x".to_string()),
        ]))
    );
}

#[test]
fn list_that_announces_strings_and_has_none_is_malformed() {
    let buf = response("list", 3);
    assert_eq!(unpack(&buf), Err(Error::Malformed));
}

#[test]
fn list_with_a_broken_string_is_malformed() {
    let mut buf = response("list", 3);
    write_str(&mut buf, "fine").unwrap();
    buf.push(0xa5);
    buf.push(b'x');
    assert_eq!(unpack(&buf), Err(Error::Malformed));
}

#[test]
fn string_decodes_to_str() {
    let mut buf = response("string", 2);
    write_str(&mut buf, "hello, wörld").unwrap();
    assert_eq!(unpack(&buf), Ok(Types::Str("hello, wörld".to_string())));
}

#[test]
fn string_that_is_not_utf8_is_malformed() {
    let mut buf = response("string", 2);
    buf.extend_from_slice(&[0xa2, 0xff, 0xfe]);
    assert_eq!(unpack(&buf), Err(Error::Malformed));
}

#[test]
fn bool_decodes() {
    let mut buf = response("bool", 2);
    write_bool(&mut buf, true).unwrap();
    assert_eq!(unpack(&buf), Ok(Types::Bool(true)));
    let mut buf = response("bool", 2);
    write_bool(&mut buf, false).unwrap();
    assert_eq!(unpack(&buf), Ok(Types::Bool(false)));
}

#[test]
fn float_decodes_to_its_bits() {
    for v in [1.5f64, -0.0, 1e300, f64::INFINITY] {
        let mut buf = response("float", 2);
        write_f64(&mut buf, v).unwrap();
        match unpack(&buf) {
            Ok(Types::Float(bits)) => {
                assert_eq!(bits, v.to_bits());
                assert_eq!(f64::from_bits(bits), v);
            }
            other => panic!("{:?}", other),
        }
    }
    let mut buf = response("float", 2);
    write_f64(&mut buf, 1.5).unwrap();
    assert_eq!(unpack(&buf), Ok(Types::Float(0x3ff8_0000_0000_0000)));
}

#[test]
fn float_with_an_integer_payload_is_malformed() {
    let mut buf = response("float", 2);
    write_sint(&mut buf, 3).unwrap();
    assert_eq!(unpack(&buf), Err(Error::Malformed));
}

#[test]
fn null_decodes_to_nil() {
    assert_eq!(unpack(&response("null", 1)), Ok(Types::Nil));
    let mut buf = response("null", 2);
    write_nil(&mut buf).unwrap();
    assert_eq!(unpack(&buf), Ok(Types::Nil));
}

#[test]
fn byte_vectors_are_raw() {
    let data = [0u8, 1, 2, 0xff, 0x80];
    assert_eq!(unpack(&blob_response("u8v", &data)), Ok(Types::U8V(data.to_vec())));
    assert_eq!(unpack(&blob_response("s8v", &data)), Ok(Types::U8V(data.to_vec())));
    assert_eq!(unpack(&blob_response("u8v", &[])), Ok(Types::U8V(vec![])));
}

#[test]
fn u16_vector_is_little_endian_pairs() {
    let data = [0x34u8, 0x12, 0xff, 0xff, 0x00, 0x80];
    assert_eq!(
        unpack(&blob_response("u16v", &data)),
        Ok(Types::U16V(vec![0x1234, 0xffff, 0x8000]))
    );
}

#[test]
fn s16_vector_is_signed() {
    let data = [0x34u8, 0x12, 0xff, 0xff, 0x00, 0x80, 0xff, 0x7f];
    assert_eq!(
        unpack(&blob_response("s16v", &data)),
        Ok(Types::S16V(vec![0x1234, -1, -32768, 32767]))
    );
}

#[test]
fn u32_vector_is_little_endian_quads() {
    let data = [0x78u8, 0x56, 0x34, 0x12, 0xff, 0xff, 0xff, 0xff, 0, 0, 0, 0x80];
    assert_eq!(
        unpack(&blob_response("u32v", &data)),
        Ok(Types::U32V(vec![0x1234_5678, u32::MAX, 0x8000_0000]))
    );
}

#[test]
fn s32_vector_is_signed() {
    let data = [0x78u8, 0x56, 0x34, 0x12, 0xff, 0xff, 0xff, 0xff, 0, 0, 0, 0x80, 0xff, 0xff, 0xff, 0x7f];
    assert_eq!(
        unpack(&blob_response("s32v", &data)),
        Ok(Types::S32V(vec![0x1234_5678, -1, i32::MIN, i32::MAX]))
    );
}

#[test]
fn complex_vector_is_pairs_of_singles() {
    let mut data = Vec::new();
    for (re, im) in [(1.0f32, -2.5f32), (0.0, 3.25)] {
        data.extend_from_slice(&re.to_le_bytes());
        data.extend_from_slice(&im.to_le_bytes());
    }
    match unpack(&blob_response("c64v", &data)) {
        Ok(Types::C64V(v)) => {
            assert_eq!(v.len(), 2);
            assert_eq!(f32::from_bits(v[0].0), 1.0);
            assert_eq!(f32::from_bits(v[0].1), -2.5);
            assert_eq!(f32::from_bits(v[1].0), 0.0);
            assert_eq!(f32::from_bits(v[1].1), 3.25);
        }
        other => panic!("{:?}", other),
    }
}

#[test]
fn a_trailing_partial_group_is_left_out() {
    assert_eq!(unpack(&blob_response("u16v", &[1, 0, 2])), Ok(Types::U16V(vec![1])));
    assert_eq!(unpack(&blob_response("s32v", &[1, 0, 0, 0, 9, 9, 9])), Ok(Types::S32V(vec![1])));
    assert_eq!(unpack(&blob_response("c64v", &[0; 15])), Ok(Types::C64V(vec![(0, 0)])));
    assert_eq!(unpack(&blob_response("u32v", &[1, 2, 3])), Ok(Types::U32V(vec![])));
}

#[test]
fn a_large_blob_decodes() {
    let data: Vec<u8> = (0..70000u32).map(|i| i as u8).collect();
    assert_eq!(unpack(&blob_response("u8v", &data)), Ok(Types::U8V(data.clone())));
    match unpack(&blob_response("u16v", &data)) {
        Ok(Types::U16V(v)) => {
            assert_eq!(v.len(), 35000);
            assert_eq!(v[1], 0x0302);
        }
        other => panic!("{:?}", other),
    }
}

#[test]
fn a_truncated_blob_is_malformed() {
    let mut buf = blob_response("u8v", &[1, 2, 3, 4]);
    buf.pop();
    assert_eq!(unpack(&buf), Err(Error::Malformed));
    let mut buf = response("u16v", 2);
    buf.push(0xc5);
    buf.push(0x01);
    assert_eq!(unpack(&buf), Err(Error::Malformed));
    assert_eq!(unpack(&response("s32v", 2)), Err(Error::Malformed));
}

#[test]
fn a_blob_tag_with_a_string_payload_is_malformed() {
    let mut buf = response("u8v", 2);
    write_str(&mut buf, "abc").unwrap();
    assert_eq!(unpack(&buf), Err(Error::Malformed));
}

#[test]
fn unknown_tag_is_refused_by_name() {
    let mut buf = response("u64v", 2);
    write_bin(&mut buf, &[0; 8]).unwrap();
    let r = unpack(&buf);
    assert_eq!(r, Err(Error::UnknownType("u64v".to_string())));
    assert_eq!(r.unwrap_err().message(), "Unknown type: u64v");
    assert_eq!(unpack(&response("", 1)), Err(Error::UnknownType(String::new())));
    assert_eq!(unpack(&response("INT", 1)), Err(Error::UnknownType("INT".to_string())));
}

#[test]
fn array_of_no_elements_is_an_invalid_length() {
    let mut buf = Vec::new();
    write_array_len(&mut buf, 0).unwrap();
    let r = unpack(&buf);
    assert_eq!(r, Err(Error::InvalidLength));
    assert_eq!(r.unwrap_err().message(), "Invalid buffer length");
}

#[test]
fn truncated_responses_are_malformed() {
    assert_eq!(unpack(&[]), Err(Error::Malformed));
    assert_eq!(unpack(&[0x92]), Err(Error::Malformed));
    assert_eq!(unpack(&[0x92, 0xa3, b'i', b'n']), Err(Error::Malformed));
    assert_eq!(unpack(&response("int", 2)), Err(Error::Malformed));
    assert_eq!(unpack(&response("string", 2)), Err(Error::Malformed));
    assert_eq!(unpack(&response("error", 2)), Err(Error::Malformed));
    assert_eq!(unpack(&response("bool", 2)), Err(Error::Malformed));
    assert_eq!(unpack(&[0xdc, 0x00]), Err(Error::Malformed));
}

#[test]
fn a_response_that_is_no_array_is_malformed() {
    let mut buf = Vec::new();
    write_str(&mut buf, "int").unwrap();
    write_sint(&mut buf, 1).unwrap();
    assert_eq!(unpack(&buf), Err(Error::Malformed));
}

#[test]
fn a_tag_that_is_no_string_is_malformed() {
    let mut buf = Vec::new();
    write_array_len(&mut buf, 2).unwrap();
    write_sint(&mut buf, 1).unwrap();
    write_sint(&mut buf, 1).unwrap();
    assert_eq!(unpack(&buf), Err(Error::Malformed));
}

#[test]
fn wide_array_headers_are_read() {
    let mut buf = Vec::new();
    write_array_len(&mut buf, 70000).unwrap();
    write_str(&mut buf, "null").unwrap();
    assert_eq!(unpack(&buf), Ok(Types::Nil));
    let mut buf = Vec::new();
    write_array_len(&mut buf, 300).unwrap();
    write_str(&mut buf, "bool").unwrap();
    write_bool(&mut buf, true).unwrap();
    assert_eq!(unpack(&buf), Ok(Types::Bool(true)));
}

#[test]
fn decode_dispatches_on_the_tag() {
    let mut payload = Vec::new();
    write_sint(&mut payload, -7).unwrap();
    assert_eq!(decode("int".to_string(), 2, &payload), Ok(Types::Int(-7)));
    assert_eq!(decode("bool".to_string(), 2, &payload), Err(Error::Malformed));
    assert_eq!(decode("null".to_string(), 2, &payload), Ok(Types::Nil));
    assert_eq!(
        decode("nope".to_string(), 2, &payload),
        Err(Error::UnknownType("nope".to_string()))
    );
    assert_eq!(decode("list".to_string(), 1, &payload), Ok(Types::List(vec![])));
    assert_eq!(decode("list".to_string(), 2, &payload), Err(Error::Malformed));
}

#[test]
fn group_splitters_on_plain_bytes() {
    assert_eq!(to_u16v(&[1, 2, 3, 4, 5]), vec![0x0201, 0x0403]);
    assert_eq!(to_s16v(&[0xfe, 0xff, 0x00, 0x80]), vec![-2, -32768]);
    assert_eq!(to_u32v(&[1, 2, 3, 4, 5, 6, 7]), vec![0x0403_0201]);
    assert_eq!(to_s32v(&[0xfe, 0xff, 0xff, 0xff]), vec![-2]);
    assert_eq!(to_c64v(&[1, 0, 0, 0, 2, 0, 0, 0]), vec![(1, 2)]);
    assert_eq!(to_u16v(&[]), Vec::<u16>::new());
    assert_eq!(to_c64v(&[0; 7]), Vec::<(u32, u32)>::new());
}

#[test]
fn take_gives_the_announced_bytes_or_nothing() {
    assert_eq!(take(2, &[1, 2, 3]), Some(&[1u8, 2][..]));
    assert_eq!(take(3, &[1, 2, 3]), Some(&[1u8, 2, 3][..]));
    assert_eq!(take(0, &[]), Some(&[][..]));
    assert_eq!(take(4, &[1, 2, 3]), None);
}

#[test]
fn list_of_reverses() {
    assert_eq!(list_of(vec![]), Types::List(vec![]));
    assert_eq!(
        list_of(vec!["1".to_string(), "2".to_string()]),
        Types::List(vec![Types::Str("2".to_string()), Types::Str("1".to_string())])
    );
}

#[test]
fn error_messages() {
    assert_eq!(Error::InvalidLength.message(), "Invalid buffer length");
    assert_eq!(Error::Malformed.message(), "Malformed response");
    assert_eq!(Error::UnknownType("x".to_string()).message(), "Unknown type: x");
    assert_eq!(Error::Server("no such stream".to_string()).message(), "no such stream");
    assert_eq!(Error::PoolExhausted.message(), "No connection available");
    assert_eq!(Error::Connection.message(), "Connection failed");
    assert_eq!(Error::InvalidBitDepth.message(), "Invalid bit depth");
    assert_eq!(Error::UnsupportedBitDepth.message(), "Unsupported bit depth");
    assert_eq!(Error::ChunkTooSmall.message(), "Chunk size too small");
    assert_eq!(Error::Compression.message(), "Compression failed");
    assert_eq!(Error::Finished.message(), "Upload already finished");
}
