use std::cmp::Ordering;

use object_id::{Generator, ObjectId};

const LOW: [u8; 5] = [0, 0, 0, 0, 1];
const HIGH: [u8; 5] = [0, 0, 0, 1, 0];

#[test]
fn timestamp_decides_first() {
    let a = ObjectId::from_parts(100, [0xff; 5], 0xFF_FFFF);
    let b = ObjectId::from_parts(200, [0; 5], 0);
    assert!(a < b);
    assert!(b > a);
    assert_eq!(a.compare(&b), -1);
    assert_eq!(b.compare(&a), 1);
    assert_eq!(a.partial_cmp(&b), Some(Ordering::Less));
    assert_eq!(a.cmp(&b), Ordering::Less);
}

#[test]
fn machine_id_decides_second() {
    let a = ObjectId::from_parts(100, LOW, 0xFF_FFFF);
    let b = ObjectId::from_parts(100, HIGH, 0);
    assert!(a < b);
    assert_eq!(a.compare(&b), -1);
    assert_eq!(b.partial_cmp(&a), Some(Ordering::Greater));
    assert_eq!(b.cmp(&a), Ordering::Greater);
}

#[test]
fn counter_decides_last() {
    let a = ObjectId::from_parts(100, LOW, 0x00_00ff);
    let b = ObjectId::from_parts(100, LOW, 0x00_0100);
    assert!(a < b);
    assert!(a <= b);
    assert_eq!(a.compare(&b), -1);
    assert_eq!(b.compare(&a), 1);
}

#[test]
fn equal_identifiers_compare_as_equal() {
    let a = ObjectId::from_parts(100, LOW, 7);
    let b = ObjectId::from_string(a.to_string()).unwrap();
    assert_eq!(a, b);
    assert!(a <= b && a >= b);
    assert_eq!(a.compare(&b), 0);
    assert_eq!(a.partial_cmp(&b), Some(Ordering::Equal));
    assert_eq!(a.cmp(&b), Ordering::Equal);
}

#[test]
fn bytes_compare_unsigned() {
    // 0x80 is above 0x7f as a byte, though below it as a signed value.
    let a = ObjectId::from_parts(0x7fff_ffff, LOW, 0);
    let b = ObjectId::from_parts(0x8000_0000, LOW, 0);
    assert!(a < b);
    assert_eq!(a.compare(&b), -1);
}

#[test]
fn order_is_the_order_of_the_wire_forms() {
    let ids = [
        ObjectId::from_parts(5, HIGH, 1),
        ObjectId::from_parts(5, LOW, 2),
        ObjectId::from_parts(4, HIGH, 3),
        ObjectId::from_parts(5, LOW, 1),
        ObjectId::from_parts(-1, LOW, 0),
        ObjectId::from_parts(0, [0; 5], 0),
    ];
    for a in &ids {
        for b in &ids {
            let by_bytes = a.to_bytes().cmp(&b.to_bytes());
            assert_eq!(a.cmp(b), by_bytes);
            assert_eq!(a.partial_cmp(b), Some(by_bytes));
            assert_eq!(a.compare(b), by_bytes as i8);
            assert_eq!(a == b, a.to_bytes() == b.to_bytes());
            assert_eq!(a.to_i().cmp(&b.to_i()), by_bytes);
        }
    }
}

#[test]
fn sorting_puts_earlier_times_first() {
    let source = Generator::new();
    let mut ids = vec![
        ObjectId::from_time(&source, 300, true),
        ObjectId::from_time(&source, 100, true),
        ObjectId::from_time(&source, 200, true),
    ];
    ids.sort();
    let times: Vec<i64> = ids.iter().map(|id| id.timestamp()).collect();
    assert_eq!(times, vec![100, 200, 300]);
}
