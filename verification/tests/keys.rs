use dit::keys::counter_key_string;
use dit::{ItemKey, ItemParentKey};

#[test]
fn item_key_format_is_eight_bytes_least_significant_first() {
    assert_eq!(ItemKey(1).format(), vec![1, 0, 0, 0, 0, 0, 0, 0]);
    assert_eq!(ItemKey(0x0102_0304_0506_0708).format(), vec![8, 7, 6, 5, 4, 3, 2, 1]);
    assert_eq!(ItemKey(u64::MAX).format(), vec![0xff; 8]);
}

#[test]
fn item_key_parse_reads_what_format_wrote() {
    for id in [0u64, 1, 2, 3, 255, 256, 65_535, 1 << 40, u64::MAX - 1, u64::MAX] {
        let bytes = ItemKey(id).format();
        assert_eq!(bytes.len(), 8);
        assert_eq!(ItemKey::parse(&bytes).0, id);
    }
}

#[test]
fn item_key_parse_reads_given_bytes() {
    assert_eq!(ItemKey::parse(&[0x2a, 0, 0, 0, 0, 0, 0, 0]).0, 42);
    assert_eq!(ItemKey::parse(&[0, 1, 0, 0, 0, 0, 0, 0]).0, 256);
}

#[test]
fn item_key_from_identifier() {
    let key = ItemKey::from(17);
    assert_eq!(key.0, 17);
    assert_eq!(key.to_string(), "ik:17");
}

#[test]
fn item_key_text_has_prefix_and_decimal() {
    assert_eq!(ItemKey(0).to_string(), "ik:0");
    assert_eq!(ItemKey(2).to_string(), "ik:2");
    assert_eq!(ItemKey(9).to_string(), "ik:9");
    assert_eq!(ItemKey(10).to_string(), "ik:10");
    assert_eq!(ItemKey(1234567890).to_string(), "ik:1234567890");
    assert_eq!(ItemKey(u64::MAX).to_string(), "ik:18446744073709551615");
}

#[test]
fn parent_key_text_has_prefix_parent_and_name() {
    assert_eq!(ItemParentKey(2, "a.txt".to_string()).to_string(), "ipk:2:a.txt");
    assert_eq!(ItemParentKey(100, String::new()).to_string(), "ipk:100:");
    assert_eq!(ItemParentKey(7, "ü:1".to_string()).to_string(), "ipk:7:ü:1");
}

#[test]
fn key_shapes_do_not_collide() {
    let item = ItemKey(2).to_string();
    let child = ItemParentKey(2, String::new()).to_string();
    let counter = counter_key_string();
    assert_eq!(counter, "next_id");
    assert_ne!(item, child);
    assert_ne!(item, counter);
    assert_ne!(child, counter);
    // A name that looks like a number does not make two parent keys meet.
    assert_ne!(
        ItemParentKey(1, "2:x".to_string()).to_string(),
        ItemParentKey(12, "x".to_string()).to_string()
    );
}
