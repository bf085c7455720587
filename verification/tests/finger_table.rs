use chord::crypto::hash_address;
use chord::finger_table::{FingerEntry, FingerTable};
use chord::ring::is_between;

/// An address whose position is `pos`.
fn finger_test_address_at(pos: u8) -> String {
    for port in 1000..60000u32 {
        let address = format!("10.0.0.1:{}", port);
        if hash_address(&address) == pos {
            return address;
        }
    }
    panic!("no address at {}", pos);
}

#[test]
fn finger_entry_new_copies_its_arguments() {
    let entry = FingerEntry::new(&7, &String::from("a:1"));
    assert_eq!(*entry.get_key(), 7);
    assert_eq!(entry.get_address(), "a:1");
    assert!(entry.is_set());
}

#[test]
fn finger_entry_for_node_stands_at_the_hash() {
    let address = String::from("127.0.0.1:5601");
    let entry = FingerEntry::for_node(&address);
    assert_eq!(entry.key, hash_address(&address));
    assert_eq!(entry.address, address);
}

#[test]
fn finger_entry_address_can_be_rewritten() {
    let mut entry = FingerEntry::new(&7, &String::new());
    assert!(!entry.is_set());
    *entry.get_address_mut() = String::from("b:2");
    assert_eq!(entry.get_address(), "b:2");
    assert_eq!(*entry.get_key(), 7);
    assert!(entry.is_set());
}

#[test]
fn finger_entry_clone_is_equal() {
    let entry = FingerEntry::new(&9, &String::from("c:3"));
    let copy = entry.clone();
    assert_eq!(copy.key, 9);
    assert_eq!(copy.address, "c:3");
}

#[test]
fn new_table_has_all_starts_and_no_address() {
    let table = FingerTable::new(&200);
    let keys: Vec<u8> = table.fingers.iter().map(|f| f.key).collect();
    assert_eq!(keys, vec![201, 202, 204, 208, 216, 232, 8, 72]);
    assert!(table.fingers.iter().all(|f| f.address.is_empty()));
}

#[test]
fn set_finger_changes_one_address() {
    let mut table = FingerTable::new(&0);
    table.set_finger(3, String::from("x:1"));
    for (i, finger) in table.fingers.iter().enumerate() {
        assert_eq!(finger.key, 1u8 << i);
        assert_eq!(finger.address, if i == 3 { "x:1" } else { "" });
    }
    assert_eq!(table.finger_address(3), "x:1");
}

#[test]
fn set_all_fingers_changes_every_address() {
    let mut table = FingerTable::new(&5);
    table.set_all_fingers(&String::from("self:1"));
    assert_eq!(table.fingers.len(), 8);
    for (i, finger) in table.fingers.iter().enumerate() {
        assert_eq!(finger.key, 5u8.wrapping_add(1u8 << i));
        assert_eq!(finger.address, "self:1");
    }
}

#[test]
fn closest_preceding_finger_is_self_without_fingers() {
    let own = FingerEntry::new(&10, &String::from("own:1"));
    let table = FingerTable::new(&10);
    let closest = table.closest_preceding_finger(&own, 100);
    assert_eq!(closest.key, 10);
    assert_eq!(closest.address, "own:1");
}

#[test]
fn closest_preceding_finger_takes_the_last_that_precedes() {
    let own = FingerEntry::new(&10, &String::from("own:1"));
    let at_20 = finger_test_address_at(20);
    let at_50 = finger_test_address_at(50);
    let at_90 = finger_test_address_at(90);
    let mut table = FingerTable::new(&10);
    table.set_finger(0, at_20.clone());
    table.set_finger(2, at_50.clone());
    table.set_finger(5, at_90.clone());
    // Fingers 1, 3, 4, 6 and 7 are unset and passed over.
    let closest = table.closest_preceding_finger(&own, 100);
    assert_eq!((closest.key, closest.address.clone()), (90, at_90.clone()));
    let closest = table.closest_preceding_finger(&own, 90);
    assert_eq!((closest.key, closest.address.clone()), (50, at_50.clone()));
    let closest = table.closest_preceding_finger(&own, 21);
    assert_eq!((closest.key, closest.address.clone()), (20, at_20.clone()));
    let closest = table.closest_preceding_finger(&own, 20);
    assert_eq!((closest.key, closest.address.clone()), (10, String::from("own:1")));
    // The arc from 10 to 5 wraps: every finger lies on it, the last wins.
    let closest = table.closest_preceding_finger(&own, 5);
    assert_eq!((closest.key, closest.address.clone()), (90, at_90));
    assert!(is_between(closest.key, 10, 5, true, true));
}

#[test]
fn closest_preceding_finger_of_the_own_position_is_self() {
    let own = FingerEntry::new(&10, &String::from("own:1"));
    let mut table = FingerTable::new(&10);
    table.set_all_fingers(&finger_test_address_at(20));
    let closest = table.closest_preceding_finger(&own, 10);
    assert_eq!(closest.key, 10);
    assert_eq!(closest.address, "own:1");
}
