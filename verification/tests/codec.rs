use healpix_batch::skymap::{
    decode_skymap, depth_skymap, encode_skymap, image_buffer_len, SkymapError, SupportedArray,
    ValueKind,
};

fn round_trip(store: SupportedArray) {
    let bytes = encode_skymap(&store);
    let back = decode_skymap(&bytes).expect("decode failed");
    assert_eq!(back, store);
}

#[test]
fn round_trip_u8() {
    round_trip(SupportedArray::U8((0..48u64).map(|i| (i * 5 % 256) as u8).collect()));
}

#[test]
fn round_trip_i16() {
    let v: Vec<i16> = (0..12).map(|i| (i as i16) * -257 + 3).collect();
    round_trip(SupportedArray::I16(v));
}

#[test]
fn round_trip_i32() {
    let v: Vec<i32> = (0..12).map(|i| (i as i32) * -100_000 + 7).collect();
    round_trip(SupportedArray::I32(v));
}

#[test]
fn round_trip_i64() {
    let v: Vec<i64> = (0..48).map(|i| (i as i64) * -4_000_000_000 + 11).collect();
    round_trip(SupportedArray::I64(v));
}

#[test]
fn round_trip_f32_bits() {
    let v: Vec<u32> = (0..12).map(|i| (i as f32 * 0.25 - 1.0).to_bits()).collect();
    round_trip(SupportedArray::F32(v));
}

#[test]
fn round_trip_f64_bits() {
    let v: Vec<u64> = (0..12).map(|i| (i as f64 * -0.125 + 2.5).to_bits()).collect();
    round_trip(SupportedArray::F64(v));
}

#[test]
fn round_trip_preserves_depth() {
    let store = SupportedArray::I32(vec![9; 48]);
    let d0 = depth_skymap(&store).unwrap();
    let bytes = encode_skymap(&store);
    let back = decode_skymap(&bytes).unwrap();
    assert_eq!(depth_skymap(&back).unwrap(), d0);
    assert_eq!(d0, 1);
}

#[test]
fn encoded_bytes_exact() {
    let bytes = encode_skymap(&SupportedArray::I16(vec![1, -1]));
    assert_eq!(bytes, vec![0x53, 0x4d, 0x01, 0x01, 0x00, 0xff, 0xff]);
}

#[test]
fn encoded_f64_is_little_endian_bits() {
    let x = 1.5f64;
    let bytes = encode_skymap(&SupportedArray::F64(vec![x.to_bits()]));
    let mut expected = vec![0x53, 0x4d, 0x05];
    expected.extend_from_slice(&x.to_bits().to_le_bytes());
    assert_eq!(bytes, expected);
}

#[test]
fn decode_too_short() {
    assert_eq!(decode_skymap(&vec![0x53, 0x4d]), Err(SkymapError::TooShort));
}

#[test]
fn decode_bad_magic() {
    assert_eq!(decode_skymap(&vec![0x00, 0x4d, 0x01]), Err(SkymapError::BadMagic));
}

#[test]
fn decode_unknown_kind() {
    assert_eq!(decode_skymap(&vec![0x53, 0x4d, 0x06]), Err(SkymapError::UnknownKind));
}

#[test]
fn decode_truncated_body() {
    assert_eq!(
        decode_skymap(&vec![0x53, 0x4d, 0x01, 0xaa]),
        Err(SkymapError::Truncated)
    );
}

#[test]
fn decode_empty_body_is_ok() {
    let store = decode_skymap(&vec![0x53, 0x4d, 0x00]).unwrap();
    assert_eq!(store, SupportedArray::U8(vec![]));
}

#[test]
fn depth_skymap_values() {
    assert_eq!(depth_skymap(&SupportedArray::U8(vec![0; 12])), Ok(0));
    assert_eq!(depth_skymap(&SupportedArray::U8(vec![0; 48])), Ok(1));
    assert_eq!(depth_skymap(&SupportedArray::F64(vec![0; 192])), Ok(2));
    assert_eq!(
        depth_skymap(&SupportedArray::U8(vec![0; 49])),
        Err(SkymapError::InvalidLength)
    );
    assert_eq!(
        depth_skymap(&SupportedArray::U8(vec![])),
        Err(SkymapError::InvalidLength)
    );
}

#[test]
fn kind_reports_the_variant() {
    assert_eq!(SupportedArray::I64(vec![1]).kind(), ValueKind::I64);
    assert_eq!(SupportedArray::F32(vec![1]).kind(), ValueKind::F32);
}

#[test]
fn image_buffer_len_values() {
    assert_eq!(image_buffer_len(256), 8 * 256 * 256);
    assert_eq!(image_buffer_len(0), 0);
    assert_eq!(image_buffer_len(65535), 8 * 65535u64 * 65535u64);
}
