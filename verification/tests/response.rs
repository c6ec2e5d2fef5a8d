use ssz_codec::error::{CodecError, PayloadFault};
use ssz_codec::fork::{Schema, SchemaRevision};
use ssz_codec::hash::H256;
use ssz_codec::protocol::{Encoding, Protocol, ProtocolId, Version};
use ssz_codec::stream::SszStream;
use ssz_codec::response::{
    decode_response, payload_len, response_shape, syncnets_in_domain, MetaData, Response, Shape,
    StatusMessage,
};

fn id(message_name: Protocol, version: Version) -> ProtocolId {
    ProtocolId::new(message_name, version, Encoding::SSZSnappy)
}

#[test]
fn protocol_identity_is_the_triple() {
    let a = ProtocolId::new(Protocol::Status, Version::V1, Encoding::SSZSnappy);
    let b = ProtocolId { message_name: Protocol::Status, version: Version::V1, encoding: Encoding::SSZSnappy };
    assert_eq!(a, b);
    assert_ne!(a, id(Protocol::Status, Version::V2));
    assert_ne!(a, id(Protocol::Ping, Version::V1));
    let mut set = std::collections::HashSet::new();
    set.insert(a);
    assert!(set.contains(&b));
    assert!(!set.contains(&id(Protocol::Goodbye, Version::V1)));
}

#[test]
fn shapes_by_protocol_and_schema() {
    let base = Schema::mainnet();
    let altair = Schema::altair();
    assert_eq!(response_shape(&id(Protocol::Status, Version::V1), &base), Some(Shape::Status));
    assert_eq!(response_shape(&id(Protocol::Goodbye, Version::V1), &base), Some(Shape::Void));
    assert_eq!(response_shape(&id(Protocol::Ping, Version::V1), &altair), Some(Shape::Pong));
    assert_eq!(response_shape(&id(Protocol::MetaData, Version::V1), &altair), Some(Shape::MetaData));
    assert_eq!(
        response_shape(&id(Protocol::MetaData, Version::V2), &altair),
        Some(Shape::MetaDataWithSyncnets)
    );
    assert_eq!(response_shape(&id(Protocol::MetaData, Version::V2), &base), None);
    assert_eq!(response_shape(&id(Protocol::Status, Version::V2), &altair), None);
    assert_eq!(response_shape(&id(Protocol::Ping, Version::V2), &altair), None);
    assert_eq!(response_shape(&id(Protocol::Goodbye, Version::V2), &base), None);
    let wide = Schema { revision: SchemaRevision::Altair, sync_subnets: 9 };
    assert_eq!(response_shape(&id(Protocol::MetaData, Version::V2), &wide), None);
}

#[test]
fn payload_lengths() {
    assert_eq!(payload_len(Shape::Status), 84);
    assert_eq!(payload_len(Shape::Void), 0);
    assert_eq!(payload_len(Shape::Pong), 8);
    assert_eq!(payload_len(Shape::MetaData), 16);
    assert_eq!(payload_len(Shape::MetaDataWithSyncnets), 17);
}

#[test]
fn status_is_read_field_by_field() {
    let mut payload = Vec::new();
    payload.extend_from_slice(&[0xde, 0xad, 0xbe, 0xef]);
    payload.extend_from_slice(&[0x11; 32]);
    payload.extend_from_slice(&[0, 0, 0, 0, 0, 0, 0x01, 0x02]);
    payload.extend_from_slice(&[0x22; 32]);
    payload.extend_from_slice(&[0, 0, 0, 0, 0, 0x03, 0x04, 0x05]);
    assert_eq!(payload.len(), 84);
    let decoded = decode_response(&id(Protocol::Status, Version::V1), &Schema::mainnet(), &payload);
    assert_eq!(
        decoded,
        Ok(Response::Status(StatusMessage {
            fork_digest: 0xdead_beef,
            finalized_root: H256([0x11; 32]),
            finalized_epoch: 0x0102,
            head_root: H256([0x22; 32]),
            head_slot: 0x03_0405,
        }))
    );
}

#[test]
fn pong_and_void() {
    let ping = id(Protocol::Ping, Version::V1);
    assert_eq!(
        decode_response(&ping, &Schema::mainnet(), &[0, 0, 0, 0, 0, 0, 0, 42]),
        Ok(Response::Pong(42))
    );
    let goodbye = id(Protocol::Goodbye, Version::V1);
    assert_eq!(decode_response(&goodbye, &Schema::mainnet(), &[]), Ok(Response::Void));
}

#[test]
fn metadata_by_version() {
    let mut payload = vec![0, 0, 0, 0, 0, 0, 0, 9];
    payload.extend_from_slice(&[0xff, 0, 0, 0, 0, 0, 0, 0x01]);
    let v1 = id(Protocol::MetaData, Version::V1);
    assert_eq!(
        decode_response(&v1, &Schema::altair(), &payload),
        Ok(Response::MetaData(MetaData {
            seq_number: 9,
            attnets: 0xff00_0000_0000_0001,
            syncnets: None
        }))
    );
    payload.push(0x0b);
    let v2 = id(Protocol::MetaData, Version::V2);
    assert_eq!(
        decode_response(&v2, &Schema::altair(), &payload),
        Ok(Response::MetaData(MetaData {
            seq_number: 9,
            attnets: 0xff00_0000_0000_0001,
            syncnets: Some(0x0b)
        }))
    );
}

#[test]
fn length_mismatch_is_a_malformed_payload() {
    let fault = Err(CodecError::MalformedPayload(PayloadFault::LengthMismatch));
    let base = Schema::mainnet();
    assert_eq!(decode_response(&id(Protocol::Status, Version::V1), &base, &[0; 83]), fault);
    assert_eq!(decode_response(&id(Protocol::Status, Version::V1), &base, &[0; 85]), fault);
    assert_eq!(decode_response(&id(Protocol::Status, Version::V1), &base, &[]), fault);
    assert_eq!(decode_response(&id(Protocol::Ping, Version::V1), &base, &[0; 7]), fault);
    assert_eq!(decode_response(&id(Protocol::Ping, Version::V1), &base, &[]), fault);
    assert_eq!(decode_response(&id(Protocol::Goodbye, Version::V1), &base, &[0]), fault);
    assert_eq!(decode_response(&id(Protocol::MetaData, Version::V1), &base, &[0; 17]), fault);
    assert_eq!(
        decode_response(&id(Protocol::MetaData, Version::V2), &Schema::altair(), &[0; 16]),
        fault
    );
}

#[test]
fn sync_subnet_bits_beyond_the_schema_are_a_domain_violation() {
    let v2 = id(Protocol::MetaData, Version::V2);
    let mut payload = vec![0u8; 17];
    payload[16] = 0x0f;
    assert!(decode_response(&v2, &Schema::altair(), &payload).is_ok());
    payload[16] = 0x10;
    assert_eq!(
        decode_response(&v2, &Schema::altair(), &payload),
        Err(CodecError::MalformedPayload(PayloadFault::DomainViolation))
    );
    payload[16] = 0xff;
    assert_eq!(
        decode_response(&v2, &Schema::altair(), &payload),
        Err(CodecError::MalformedPayload(PayloadFault::DomainViolation))
    );
    let eight = Schema { revision: SchemaRevision::Altair, sync_subnets: 8 };
    assert!(decode_response(&v2, &eight, &payload).is_ok());
    let none = Schema { revision: SchemaRevision::Altair, sync_subnets: 0 };
    assert_eq!(
        decode_response(&v2, &none, &payload),
        Err(CodecError::MalformedPayload(PayloadFault::DomainViolation))
    );
    payload[16] = 0;
    assert!(decode_response(&v2, &none, &payload).is_ok());
}

#[test]
fn syncnets_domain_is_a_power_of_two() {
    assert!(syncnets_in_domain(0, 0));
    assert!(!syncnets_in_domain(1, 0));
    assert!(syncnets_in_domain(1, 1));
    assert!(!syncnets_in_domain(2, 1));
    assert!(syncnets_in_domain(15, 4));
    assert!(!syncnets_in_domain(16, 4));
    assert!(syncnets_in_domain(127, 7));
    assert!(!syncnets_in_domain(128, 7));
    assert!(syncnets_in_domain(255, 8));
}

#[test]
fn schema_is_asked_before_the_length() {
    let v2 = id(Protocol::MetaData, Version::V2);
    assert_eq!(
        decode_response(&v2, &Schema::mainnet(), &[0; 17]),
        Err(CodecError::UnsupportedSchema)
    );
    assert_eq!(decode_response(&v2, &Schema::mainnet(), &[]), Err(CodecError::UnsupportedSchema));
    assert_eq!(
        decode_response(&id(Protocol::Status, Version::V2), &Schema::altair(), &[0; 84]),
        Err(CodecError::UnsupportedSchema)
    );
}

fn payload_of(response: &Response) -> Vec<u8> {
    let mut ssz = SszStream::new();
    ssz.append(response);
    ssz.drain()
}

#[test]
fn responses_are_written_field_by_field() {
    let status = Response::Status(StatusMessage {
        fork_digest: 0x0a0b_0c0d,
        finalized_root: H256([1; 32]),
        finalized_epoch: 2,
        head_root: H256([3; 32]),
        head_slot: 0x0405,
    });
    let mut expected = vec![0x0a, 0x0b, 0x0c, 0x0d];
    expected.extend_from_slice(&[1; 32]);
    expected.extend_from_slice(&[0, 0, 0, 0, 0, 0, 0, 2]);
    expected.extend_from_slice(&[3; 32]);
    expected.extend_from_slice(&[0, 0, 0, 0, 0, 0, 4, 5]);
    assert_eq!(payload_of(&status), expected);

    assert_eq!(payload_of(&Response::Void), Vec::<u8>::new());
    assert_eq!(payload_of(&Response::Pong(258)), vec![0, 0, 0, 0, 0, 0, 1, 2]);
    let metadata = MetaData { seq_number: 1, attnets: 2, syncnets: None };
    assert_eq!(
        payload_of(&Response::MetaData(metadata)),
        vec![0, 0, 0, 0, 0, 0, 0, 1, 0, 0, 0, 0, 0, 0, 0, 2]
    );
    let metadata = MetaData { seq_number: 1, attnets: 2, syncnets: Some(3) };
    assert_eq!(
        payload_of(&Response::MetaData(metadata)),
        vec![0, 0, 0, 0, 0, 0, 0, 1, 0, 0, 0, 0, 0, 0, 0, 2, 3]
    );
}

#[test]
fn responses_round_trip() {
    let cases = [
        (
            id(Protocol::Status, Version::V1),
            Response::Status(StatusMessage {
                fork_digest: u32::MAX,
                finalized_root: H256([0xfe; 32]),
                finalized_epoch: u64::MAX,
                head_root: H256::zero(),
                head_slot: 1 << 40,
            }),
        ),
        (id(Protocol::Goodbye, Version::V1), Response::Void),
        (id(Protocol::Ping, Version::V1), Response::Pong(0x0123_4567_89ab_cdef)),
        (
            id(Protocol::MetaData, Version::V1),
            Response::MetaData(MetaData { seq_number: 5, attnets: u64::MAX, syncnets: None }),
        ),
        (
            id(Protocol::MetaData, Version::V2),
            Response::MetaData(MetaData { seq_number: 6, attnets: 1, syncnets: Some(0x0f) }),
        ),
    ];
    for (protocol, response) in cases {
        let payload = payload_of(&response);
        assert_eq!(decode_response(&protocol, &Schema::altair(), &payload), Ok(response));
    }
}
