use ssz_codec::hash::{H256, U256};
use ssz_codec::stream::{Encodable, SszStream};

#[test]
fn test_ssz_encode_u8() {
    let x: u8 = 0;
    let mut ssz = SszStream::new();
    ssz.append(&x);
    assert_eq!(ssz.drain(), vec![0]);

    let x: u8 = 1;
    let mut ssz = SszStream::new();
    ssz.append(&x);
    assert_eq!(ssz.drain(), vec![1]);

    let x: u8 = 100;
    let mut ssz = SszStream::new();
    ssz.append(&x);
    assert_eq!(ssz.drain(), vec![100]);

    let x: u8 = 255;
    let mut ssz = SszStream::new();
    ssz.append(&x);
    assert_eq!(ssz.drain(), vec![255]);
}

#[test]
fn test_ssz_encode_u16() {
    let x: u16 = 1;
    let mut ssz = SszStream::new();
    ssz.append(&x);
    assert_eq!(ssz.drain(), vec![0, 1]);

    let x: u16 = 100;
    let mut ssz = SszStream::new();
    ssz.append(&x);
    assert_eq!(ssz.drain(), vec![0, 100]);

    let x: u16 = 1 << 8;
    let mut ssz = SszStream::new();
    ssz.append(&x);
    assert_eq!(ssz.drain(), vec![1, 0]);

    let x: u16 = 65535;
    let mut ssz = SszStream::new();
    ssz.append(&x);
    assert_eq!(ssz.drain(), vec![255, 255]);
}

#[test]
fn test_ssz_encode_u32() {
    let x: u32 = 1;
    let mut ssz = SszStream::new();
    ssz.append(&x);
    assert_eq!(ssz.drain(), vec![0, 0, 0, 1]);

    let x: u32 = 100;
    let mut ssz = SszStream::new();
    ssz.append(&x);
    assert_eq!(ssz.drain(), vec![0, 0, 0, 100]);

    let x: u32 = 1 << 16;
    let mut ssz = SszStream::new();
    ssz.append(&x);
    assert_eq!(ssz.drain(), vec![0, 1, 0, 0]);

    let x: u32 = 1 << 24;
    let mut ssz = SszStream::new();
    ssz.append(&x);
    assert_eq!(ssz.drain(), vec![1, 0, 0, 0]);

    let x: u32 = !0;
    let mut ssz = SszStream::new();
    ssz.append(&x);
    assert_eq!(ssz.drain(), vec![255, 255, 255, 255]);
}

#[test]
fn test_ssz_encode_u64() {
    let x: u64 = 1;
    let mut ssz = SszStream::new();
    ssz.append(&x);
    assert_eq!(ssz.drain(), vec![0, 0, 0, 0, 0, 0, 0, 1]);

    let x: u64 = 100;
    let mut ssz = SszStream::new();
    ssz.append(&x);
    assert_eq!(ssz.drain(), vec![0, 0, 0, 0, 0, 0, 0, 100]);

    let x: u64 = 1 << 32;
    let mut ssz = SszStream::new();
    ssz.append(&x);
    assert_eq!(ssz.drain(), vec![0, 0, 0, 1, 0, 0, 0, 0]);

    let x: u64 = !0;
    let mut ssz = SszStream::new();
    ssz.append(&x);
    assert_eq!(ssz.drain(), vec![255, 255, 255, 255, 255, 255, 255, 255]);
}

#[test]
fn test_ssz_encode_usize() {
    let x: usize = 1;
    let mut ssz = SszStream::new();
    ssz.append(&x);
    assert_eq!(ssz.drain(), vec![0, 0, 0, 0, 0, 0, 0, 1]);

    let x: usize = 100;
    let mut ssz = SszStream::new();
    ssz.append(&x);
    assert_eq!(ssz.drain(), vec![0, 0, 0, 0, 0, 0, 0, 100]);

    let x: usize = 1 << 32;
    let mut ssz = SszStream::new();
    ssz.append(&x);
    assert_eq!(ssz.drain(), vec![0, 0, 0, 1, 0, 0, 0, 0]);

    let x: usize = !0;
    let mut ssz = SszStream::new();
    ssz.append(&x);
    assert_eq!(ssz.drain(), vec![255, 255, 255, 255, 255, 255, 255, 255]);
}

fn encoded<E: Encodable>(value: &E) -> Vec<u8> {
    let mut ssz = SszStream::new();
    ssz.append(value);
    ssz.drain()
}

#[test]
fn big_endian_ordering() {
    assert_eq!(encoded(&0x0100u16), vec![0x01, 0x00]);
    assert_eq!(encoded(&255u8), vec![0xff]);
    assert_eq!(encoded(&(1u64 << 32)), vec![0, 0, 0, 1, 0, 0, 0, 0]);
    assert_eq!(encoded(&0x0102_0304u32), vec![1, 2, 3, 4]);
    assert_eq!(encoded(&0x0102_0304_0506_0708u64), vec![1, 2, 3, 4, 5, 6, 7, 8]);
}

#[test]
fn encodings_have_the_width_of_their_type() {
    for value in [0u8, 1, 127, 128, 255] {
        assert_eq!(encoded(&value).len(), 1);
    }
    for value in [0u16, 1, 255, 256, 65535] {
        assert_eq!(encoded(&value).len(), 2);
    }
    for value in [0u32, 1, 65536, u32::MAX] {
        assert_eq!(encoded(&value).len(), 4);
    }
    for value in [0u64, 1, 1 << 40, u64::MAX] {
        assert_eq!(encoded(&value).len(), 8);
    }
    assert_eq!(encoded(&H256::zero()).len(), 32);
    assert_eq!(encoded(&U256::from_u64(7)).len(), 32);
}

#[test]
fn hash_is_encoded_verbatim() {
    let mut bytes = [0u8; 32];
    for (i, byte) in bytes.iter_mut().enumerate() {
        *byte = (i as u8) * 3 + 1;
    }
    let hash = H256(bytes);
    assert_eq!(encoded(&hash), bytes.to_vec());
    assert_eq!(hash.to_vec(), bytes.to_vec());
    assert_eq!(encoded(&H256::zero()), vec![0u8; 32]);
}

#[test]
fn uint256_is_encoded_most_significant_byte_first() {
    let mut expected = vec![0u8; 32];
    expected[31] = 1;
    assert_eq!(encoded(&U256::from_u64(1)), expected);

    // limbs are least significant first: this is 2^64
    let mut expected = vec![0u8; 32];
    expected[23] = 1;
    assert_eq!(encoded(&U256([0, 1, 0, 0])), expected);

    let number = U256([
        0x1817_1615_1413_1211,
        0x2827_2625_2423_2221,
        0x3837_3635_3433_3231,
        0x4847_4645_4443_4241,
    ]);
    let expected: Vec<u8> = vec![
        0x48, 0x47, 0x46, 0x45, 0x44, 0x43, 0x42, 0x41, 0x38, 0x37, 0x36, 0x35, 0x34, 0x33, 0x32,
        0x31, 0x28, 0x27, 0x26, 0x25, 0x24, 0x23, 0x22, 0x21, 0x18, 0x17, 0x16, 0x15, 0x14, 0x13,
        0x12, 0x11,
    ];
    assert_eq!(encoded(&number), expected);
    assert_eq!(encoded(&U256([u64::MAX; 4])), vec![0xffu8; 32]);
}

#[test]
fn stream_holds_the_appends_in_call_order() {
    let mut ssz = SszStream::new();
    ssz.append(&0x0102u16);
    ssz.append_encoded_raw(&vec![9, 8, 7]);
    ssz.append(&5u8);
    ssz.append_encoded_val(&vec![6]);
    ssz.append(&0x0a0b_0c0du32);
    assert_eq!(ssz.drain(), vec![1, 2, 9, 8, 7, 5, 6, 0x0a, 0x0b, 0x0c, 0x0d]);
}

#[test]
fn raw_and_value_appends_agree_on_fixed_size_bytes() {
    let bytes = vec![4u8, 5, 6, 7];
    let mut raw = SszStream::new();
    raw.append_encoded_raw(&bytes);
    let mut val = SszStream::new();
    val.append_encoded_val(&bytes);
    assert_eq!(raw.drain(), val.drain());
}

#[test]
fn empty_stream_drains_to_nothing() {
    assert_eq!(SszStream::new().drain(), Vec::<u8>::new());
}
