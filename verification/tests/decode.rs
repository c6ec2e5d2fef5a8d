use ssz_codec::decode::Decodable;
use ssz_codec::error::DecodeError;
use ssz_codec::hash::{H256, U256};
use ssz_codec::stream::{Encodable, SszStream};

fn encoded<E: Encodable>(value: &E) -> Vec<u8> {
    let mut ssz = SszStream::new();
    ssz.append(value);
    ssz.drain()
}

#[test]
fn decode_reads_most_significant_byte_first() {
    assert_eq!(u8::ssz_decode(&[0xff]), Ok(255));
    assert_eq!(u16::ssz_decode(&[0x01, 0x00]), Ok(0x0100));
    assert_eq!(u32::ssz_decode(&[1, 2, 3, 4]), Ok(0x0102_0304));
    assert_eq!(u64::ssz_decode(&[0, 0, 0, 1, 0, 0, 0, 0]), Ok(1u64 << 32));
    assert_eq!(u64::ssz_decode(&[0xff; 8]), Ok(u64::MAX));
}

#[test]
fn round_trip_of_integers() {
    for value in [0u8, 1, 100, 127, 128, 255] {
        assert_eq!(u8::ssz_decode(&encoded(&value)), Ok(value));
    }
    for value in [0u16, 1, 100, 255, 256, 0x1234, 65535] {
        assert_eq!(u16::ssz_decode(&encoded(&value)), Ok(value));
    }
    for value in [0u32, 1, 65535, 65536, 0x1234_5678, u32::MAX] {
        assert_eq!(u32::ssz_decode(&encoded(&value)), Ok(value));
    }
    for value in [0u64, 1, 1 << 32, 0x1234_5678_9abc_def0, u64::MAX] {
        assert_eq!(u64::ssz_decode(&encoded(&value)), Ok(value));
    }
}

#[test]
fn round_trip_of_hash_and_uint256() {
    let mut bytes = [0u8; 32];
    for (i, byte) in bytes.iter_mut().enumerate() {
        *byte = 200 - i as u8;
    }
    let hash = H256(bytes);
    assert_eq!(H256::ssz_decode(&encoded(&hash)), Ok(hash));
    assert_eq!(H256::ssz_decode(&[0u8; 32]), Ok(H256::zero()));

    for number in [
        U256([0, 0, 0, 0]),
        U256([1, 0, 0, 0]),
        U256([0, 0, 0, 1]),
        U256([0x11, 0x22, 0x33, 0x44]),
        U256([u64::MAX, 0, u64::MAX, 0]),
        U256([u64::MAX; 4]),
    ] {
        assert_eq!(U256::ssz_decode(&encoded(&number)), Ok(number));
    }
}

#[test]
fn uint256_is_read_into_limbs() {
    let mut bytes = [0u8; 32];
    bytes[0] = 0x80;
    bytes[15] = 0x05;
    bytes[23] = 0x07;
    bytes[31] = 0x09;
    assert_eq!(U256::ssz_decode(&bytes), Ok(U256([9, 7, 5, 0x8000_0000_0000_0000])));
    assert_eq!(U256::from_u64(0x0102), U256([0x0102, 0, 0, 0]));
}

#[test]
fn every_bit_pattern_of_the_right_length_is_a_value() {
    for first in [0u8, 1, 0x7f, 0x80, 0xff] {
        for second in [0u8, 0x55, 0xff] {
            let bytes = [first, second];
            let value = u16::ssz_decode(&bytes).unwrap();
            assert_eq!(encoded(&value), bytes.to_vec());
        }
    }
    let bytes = [0xa5u8; 32];
    assert_eq!(encoded(&U256::ssz_decode(&bytes).unwrap()), bytes.to_vec());
    assert_eq!(encoded(&H256::ssz_decode(&bytes).unwrap()), bytes.to_vec());
}

#[test]
fn decode_rejects_other_lengths() {
    assert_eq!(u8::ssz_decode(&[]), Err(DecodeError::MalformedLength));
    assert_eq!(u8::ssz_decode(&[1, 2]), Err(DecodeError::MalformedLength));
    assert_eq!(u16::ssz_decode(&[1]), Err(DecodeError::MalformedLength));
    assert_eq!(u16::ssz_decode(&[1, 2, 3]), Err(DecodeError::MalformedLength));
    assert_eq!(u32::ssz_decode(&[1, 2, 3]), Err(DecodeError::MalformedLength));
    assert_eq!(u32::ssz_decode(&[1, 2, 3, 4, 5]), Err(DecodeError::MalformedLength));
    assert_eq!(u64::ssz_decode(&[0; 7]), Err(DecodeError::MalformedLength));
    assert_eq!(u64::ssz_decode(&[0; 9]), Err(DecodeError::MalformedLength));
    assert_eq!(H256::ssz_decode(&[0; 31]), Err(DecodeError::MalformedLength));
    assert_eq!(H256::ssz_decode(&[0; 33]), Err(DecodeError::MalformedLength));
    assert_eq!(U256::ssz_decode(&[0; 31]), Err(DecodeError::MalformedLength));
    assert_eq!(U256::ssz_decode(&[0; 33]), Err(DecodeError::MalformedLength));
    assert_eq!(U256::ssz_decode(&[]), Err(DecodeError::MalformedLength));
}

#[test]
fn read_be_spells_base_256() {
    assert_eq!(ssz_codec::big_endian::read_be(&[]), 0);
    assert_eq!(ssz_codec::big_endian::read_be(&[7]), 7);
    assert_eq!(ssz_codec::big_endian::read_be(&[1, 0, 0]), 65536);
    assert_eq!(ssz_codec::big_endian::read_be(&[0, 0, 2, 1]), 513);
}
