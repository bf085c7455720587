use chord::conversions::{
    address_to_finger_entry_msg, address_to_hash_pos_msg, finger_entry_from_msg,
    finger_entry_to_msg, kv_pair_from_msg, kv_pair_to_msg, pos_from_bytes, pos_to_bytes,
    push_u64, successor_list_from_msg, successor_list_to_msg, AddressMsg, FingerEntryMsg,
    KvPairMsg, SuccessorListMsg,
};
use chord::crypto::hash_address;
use chord::finger_table::FingerEntry;
use chord::successor_list::SuccessorList;

#[test]
fn a_position_travels_as_its_bytes() {
    assert_eq!(pos_to_bytes(0), vec![0]);
    assert_eq!(pos_to_bytes(200), vec![200]);
    assert_eq!(pos_to_bytes(200), 200u8.to_be_bytes().to_vec());
    for pos in 0..=255u8 {
        assert_eq!(pos_from_bytes(&pos_to_bytes(pos)), Some(pos));
    }
}

#[test]
fn bytes_of_another_length_are_no_position() {
    assert_eq!(pos_from_bytes(&[]), None);
    assert_eq!(pos_from_bytes(&[1, 2]), None);
    assert_eq!(pos_from_bytes(&[0; 16]), None);
}

#[test]
fn push_u64_appends_big_endian() {
    let mut out = vec![9];
    push_u64(&mut out, 0x0102030405060708);
    assert_eq!(out, vec![9, 1, 2, 3, 4, 5, 6, 7, 8]);
    for x in [0u64, 1, 255, 256, 0xdead_beef, u64::MAX] {
        let mut out = Vec::new();
        push_u64(&mut out, x);
        assert_eq!(out, x.to_be_bytes().to_vec());
    }
}

#[test]
fn a_finger_entry_round_trips() {
    let entry = FingerEntry::new(&77, &String::from("n:1"));
    let message = finger_entry_to_msg(&entry);
    assert_eq!(message.id, vec![77]);
    assert_eq!(message.address, "n:1");
    let back = finger_entry_from_msg(&message).unwrap();
    assert_eq!((back.key, back.address), (77, String::from("n:1")));
    let broken = FingerEntryMsg { id: vec![1, 2], address: String::from("n:1") };
    assert!(finger_entry_from_msg(&broken).is_none());
}

#[test]
fn an_address_travels_with_its_position() {
    let address = String::from("127.0.0.1:5601");
    let message = address_to_finger_entry_msg(&address);
    assert_eq!(message.id, vec![hash_address(&address)]);
    assert_eq!(message.id, vec![76]);
    assert_eq!(message.address, address);
    assert_eq!(address_to_hash_pos_msg(&address).key, vec![76]);
}

#[test]
fn a_successor_list_round_trips() {
    let list = SuccessorList {
        own_address: String::from("a"),
        successors: vec![String::from("b"), String::from("c")],
    };
    let message = successor_list_to_msg(&list);
    assert_eq!(message.own_address.as_ref().unwrap().address, "a");
    let sent: Vec<&str> = message.successors.iter().map(|m| m.address.as_str()).collect();
    assert_eq!(sent, vec!["b", "c"]);
    let back = successor_list_from_msg(&message).unwrap();
    assert_eq!(back.own_address, "a");
    assert_eq!(back.successors, vec!["b", "c"]);
    let nameless = SuccessorListMsg {
        own_address: None,
        successors: vec![AddressMsg { address: String::from("b") }],
    };
    assert!(successor_list_from_msg(&nameless).is_none());
}

#[test]
fn a_pair_round_trips() {
    let mut key = [0u8; 32];
    for (i, byte) in key.iter_mut().enumerate() {
        *byte = 100 + i as u8;
    }
    let message = kv_pair_to_msg(&key, &b"value".to_vec());
    assert_eq!(message.key, key.to_vec());
    assert_eq!(message.value, b"value");
    assert_eq!(kv_pair_from_msg(&message), Some((key, b"value".to_vec())));
    let short = KvPairMsg { key: vec![1; 31], value: vec![] };
    assert_eq!(kv_pair_from_msg(&short), None);
    let long = KvPairMsg { key: vec![1; 33], value: vec![] };
    assert_eq!(kv_pair_from_msg(&long), None);
}
