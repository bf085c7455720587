use chord::chord::{process_node_join, RequestError};
use chord::client_api::{
    encode_failure, encode_success, frame_size, next_read, parse_request, reply_for_get,
    ClientRequest, FrameError, NextRead, DHT_FAILURE, DHT_GET, DHT_PUT, DHT_SUCCESS,
};

fn put_frame(ttl: u16, replication: u8, reserved: u8, key: [u8; 32], value: &[u8]) -> Vec<u8> {
    let mut frame = Vec::new();
    frame.extend_from_slice(&((40 + value.len()) as u16).to_be_bytes());
    frame.extend_from_slice(&650u16.to_be_bytes());
    frame.extend_from_slice(&ttl.to_be_bytes());
    frame.push(replication);
    frame.push(reserved);
    frame.extend_from_slice(&key);
    frame.extend_from_slice(value);
    frame
}

fn get_frame(key: [u8; 32]) -> Vec<u8> {
    let mut frame = Vec::new();
    frame.extend_from_slice(&36u16.to_be_bytes());
    frame.extend_from_slice(&651u16.to_be_bytes());
    frame.extend_from_slice(&key);
    frame
}

#[test]
fn the_codes_of_the_protocol() {
    assert_eq!((DHT_PUT, DHT_GET, DHT_SUCCESS, DHT_FAILURE), (650, 651, 652, 653));
}

#[test]
fn parse_a_put() {
    let mut key = [0u8; 32];
    for (i, byte) in key.iter_mut().enumerate() {
        *byte = i as u8 + 1;
    }
    let frame = put_frame(0x1234, 3, 9, key, b"hello");
    assert_eq!(frame.len(), 45);
    match parse_request(&frame) {
        Ok(ClientRequest::Put { ttl, replication, reserved, key: parsed_key, value }) => {
            assert_eq!(ttl, 0x1234);
            assert_eq!(replication, 3);
            assert_eq!(reserved, 9);
            assert_eq!(parsed_key, key);
            assert_eq!(value, b"hello");
        }
        other => panic!("not a put: {:?}", other),
    }
}

#[test]
fn parse_a_put_without_value() {
    let frame = put_frame(1, 2, 0, [7u8; 32], b"");
    assert_eq!(frame.len(), 40);
    match parse_request(&frame) {
        Ok(ClientRequest::Put { value, .. }) => assert!(value.is_empty()),
        other => panic!("not a put: {:?}", other),
    }
}

#[test]
fn parse_a_get() {
    let frame = get_frame([0xab; 32]);
    match parse_request(&frame) {
        Ok(ClientRequest::Get { key }) => assert_eq!(key, [0xab; 32]),
        other => panic!("not a get: {:?}", other),
    }
}

#[test]
fn frames_that_are_no_requests() {
    let error = |frame: &[u8]| parse_request(frame).err();
    assert_eq!(error(&[]), Some(FrameError::Truncated));
    assert_eq!(error(&[0, 3, 2]), Some(FrameError::Truncated));
    assert_eq!(error(&[0, 5, 2, 0x8b]), Some(FrameError::SizeMismatch));
    let mut long = get_frame([1; 32]);
    long.push(0);
    assert_eq!(error(&long), Some(FrameError::SizeMismatch));
    long[1] = 37;
    assert_eq!(error(&long), Some(FrameError::BadLength));
    assert_eq!(error(&[0, 4, 2, 0x8b]), Some(FrameError::BadLength));
    let mut short_put = put_frame(0, 0, 0, [1; 32], b"");
    short_put.pop();
    short_put[1] = 39;
    assert_eq!(error(&short_put), Some(FrameError::BadLength));
    assert_eq!(error(&[0, 4, 2, 0x8c]), Some(FrameError::UnknownCode(652)));
    assert_eq!(error(&[0, 4, 0, 0]), Some(FrameError::UnknownCode(0)));
    assert_eq!(error(&[0, 4, 0xff, 0xff]), Some(FrameError::UnknownCode(65535)));
}

#[test]
fn encode_a_success() {
    let key = [5u8; 32];
    let frame = encode_success(&key, &b"hello".to_vec()).unwrap();
    let mut expected = vec![0, 41, 0x02, 0x8c];
    expected.extend_from_slice(&key);
    expected.extend_from_slice(b"hello");
    assert_eq!(frame, expected);
}

#[test]
fn encode_a_success_at_the_limit() {
    let key = [5u8; 32];
    let frame = encode_success(&key, &vec![1u8; 65499]).unwrap();
    assert_eq!(frame.len(), 65535);
    assert_eq!(&frame[..4], &[0xff, 0xff, 0x02, 0x8c]);
    assert_eq!(encode_success(&key, &vec![1u8; 65500]), None);
}

#[test]
fn encode_a_failure() {
    let key = [6u8; 32];
    let mut expected = vec![0, 36, 0x02, 0x8d];
    expected.extend_from_slice(&key);
    assert_eq!(encode_failure(&key), expected);
}

#[test]
fn reply_for_get_maps_the_answer() {
    let key = [6u8; 32];
    assert_eq!(
        reply_for_get(&key, &Ok(Some(b"v".to_vec()))),
        encode_success(&key, &b"v".to_vec()).unwrap()
    );
    assert_eq!(reply_for_get(&key, &Ok(None)), encode_failure(&key));
    assert_eq!(reply_for_get(&key, &Err(RequestError::OutOfRange)), encode_failure(&key));
    assert_eq!(reply_for_get(&key, &Ok(Some(vec![0u8; 70000]))), encode_failure(&key));
}

#[test]
fn next_read_after_the_size() {
    assert_eq!(next_read(0), NextRead::Close);
    assert_eq!(next_read(1), NextRead::Rest(0));
    assert_eq!(next_read(2), NextRead::Rest(0));
    assert_eq!(next_read(36), NextRead::Rest(34));
    assert_eq!(next_read(65535), NextRead::Rest(65533));
}

#[test]
fn frame_size_reads_big_endian() {
    assert_eq!(frame_size(&[0, 0]), 0);
    assert_eq!(frame_size(&[0, 36]), 36);
    assert_eq!(frame_size(&[1, 0]), 256);
    assert_eq!(frame_size(&[0x12, 0x34]), 0x1234);
    assert_eq!(frame_size(&[0xff, 0xff]), 65535);
}

#[test]
fn solo_cluster_local_put_and_get() {
    let mut node = process_node_join(&String::from("127.0.0.1:5601"), None);
    let key = [0x01u8; 32];
    match parse_request(&put_frame(0, 1, 0, key, b"hello")).unwrap() {
        ClientRequest::Put { ttl, replication, key, value, .. } => {
            assert_eq!(node.put(&key, &value, ttl as u64, replication as u32), Ok(()));
        }
        ClientRequest::Get { .. } => panic!("a put was sent"),
    }
    let reply = match parse_request(&get_frame(key)).unwrap() {
        ClientRequest::Get { key } => reply_for_get(&key, &node.get(&key)),
        ClientRequest::Put { .. } => panic!("a get was sent"),
    };
    let mut expected = vec![0, 41, 0x02, 0x8c];
    expected.extend_from_slice(&key);
    expected.extend_from_slice(b"hello");
    assert_eq!(reply, expected);
    assert_eq!(frame_size(&[reply[2], reply[3]]), DHT_SUCCESS);
    // A key that was never put is answered with a failure.
    let other = [0x02u8; 32];
    let mut failure = vec![0, 36, 0x02, 0x8d];
    failure.extend_from_slice(&other);
    assert_eq!(reply_for_get(&other, &node.get(&other)), failure);
}
