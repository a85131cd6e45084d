use dit::counter::ROOT_ID;
use dit::index::{child_from, item_from, settle};
use dit::model::MAX_DEPTH;
use dit::{Config, DirEntry, Index, IndexError, Item};
use std::collections::BTreeSet;

fn store() -> sled::Db {
    sled::Config::new().temporary(true).open().unwrap()
}

fn open(root: &str) -> (sled::Db, Index) {
    let db = store();
    let index = Index::new(db.clone(), root.to_string()).unwrap();
    (db, index)
}

fn file(name: &str, size: u64) -> DirEntry {
    DirEntry { name: name.to_string(), is_dir: false, size }
}

fn dir(name: &str) -> DirEntry {
    DirEntry { name: name.to_string(), is_dir: true, size: 4096 }
}

fn item_count(db: &sled::Db) -> usize {
    db.scan_prefix("ik:").count()
}

#[test]
fn config_can_be_made() {
    let _config = Config {};
}

#[test]
fn settle_keeps_success_and_names_failure() {
    assert_eq!(settle::<u8>(Ok(7)), Ok(7));
    assert_eq!(
        settle::<u8>(Err(sled::Error::Unsupported("no".to_string()))),
        Err(IndexError::Io)
    );
}

#[test]
fn item_from_store_value() {
    let item = Item { id: 3, parent: 2, name: "a".to_string(), size: 1 };
    assert_eq!(item_from(3, None), Err(IndexError::NotFound));
    assert_eq!(item_from(3, Some(item.format())), Ok(item.clone()));
    assert_eq!(item_from(4, Some(item.format())), Err(IndexError::Corrupt));
    assert_eq!(item_from(3, Some(vec![1, 2, 3])), Err(IndexError::Corrupt));
}

#[test]
fn child_from_store_value() {
    assert_eq!(child_from(None), Ok(None));
    assert_eq!(child_from(Some(vec![9, 0, 0, 0, 0, 0, 0, 0])), Ok(Some(9)));
    assert_eq!(child_from(Some(vec![9, 0, 0])), Err(IndexError::Corrupt));
}

#[test]
fn root_path_of_new_index() {
    let (_db, index) = open("/data");
    assert_eq!(index.root(), "/data");
    assert_eq!(index.get_full_path(ROOT_ID), Ok("/data".to_string()));
    let root = index.get_item(ROOT_ID).unwrap();
    assert_eq!(root, Item { id: 2, parent: 2, name: "/data".to_string(), size: 0 });
    assert!(root.is_root());
}

#[test]
fn root_name_is_kept_exactly() {
    for root in ["/", "", "/data/", "C:\\data", "/дата/x y"] {
        let (_db, index) = open(root);
        assert_eq!(index.get_full_path(ROOT_ID), Ok(root.to_string()));
    }
}

#[test]
fn opening_again_keeps_the_root() {
    let db = store();
    let first = Index::new(db.clone(), "/data".to_string()).unwrap();
    assert_eq!(item_count(&db), 1);
    drop(first);
    let second = Index::new(db.clone(), "/other".to_string()).unwrap();
    assert_eq!(item_count(&db), 1);
    assert_eq!(second.root(), "/data");
    assert_eq!(second.get_full_path(ROOT_ID), Ok("/data".to_string()));
    assert_eq!(second.get_next_id(), Ok(None));
}

#[test]
fn opening_rejects_a_root_record_that_is_no_root() {
    let db = store();
    let stray = Item { id: 2, parent: 7, name: "x".to_string(), size: 0 };
    db.insert("ik:2", stray.format()).unwrap();
    assert!(matches!(Index::new(db.clone(), "/data".to_string()), Err(IndexError::CorruptGraph)));
}

#[test]
fn opening_rejects_a_corrupt_root_record() {
    let db = store();
    db.insert("ik:2", vec![1, 2, 3]).unwrap();
    assert!(matches!(Index::new(db.clone(), "/data".to_string()), Err(IndexError::Corrupt)));
}

#[test]
fn get_item_never_inserted_is_not_found() {
    let (_db, mut index) = open("/data");
    assert_eq!(index.get_item(3), Err(IndexError::NotFound));
    assert_eq!(index.get_item(0), Err(IndexError::NotFound));
    assert_eq!(index.get_item(u64::MAX), Err(IndexError::NotFound));
    let item = Item { id: 20, parent: 2, name: "x".to_string(), size: 0 };
    index.insert_item(&item).unwrap();
    index.insert_child(&item).unwrap();
    assert_eq!(index.get_item(2000), Err(IndexError::NotFound));
    assert_eq!(index.get_item(200), Err(IndexError::NotFound));
    assert_eq!(index.get_item(21), Err(IndexError::NotFound));
}

#[test]
fn insert_item_then_get_item() {
    let (db, mut index) = open("/data");
    let item = Item { id: 5, parent: 2, name: "f".to_string(), size: 12 };
    assert_eq!(index.insert_item(&item), Ok(()));
    assert_eq!(index.get_item(5), Ok(item.clone()));
    assert_eq!(db.get("ik:5").unwrap().unwrap().to_vec(), item.format());
    // Putting the same item again changes nothing.
    assert_eq!(index.insert_item(&item), Ok(()));
    assert_eq!(item_count(&db), 2);
    // Putting another item under the same identifier replaces the first.
    let other = Item { id: 5, parent: 2, name: "g".to_string(), size: 1 };
    assert_eq!(index.insert_item(&other), Ok(()));
    assert_eq!(index.get_item(5), Ok(other));
    assert_eq!(item_count(&db), 2);
}

#[test]
fn get_item_reports_corrupt_records() {
    let (db, index) = open("/data");
    db.insert("ik:5", vec![0u8; 10]).unwrap();
    assert_eq!(index.get_item(5), Err(IndexError::Corrupt));
    let other = Item { id: 6, parent: 2, name: "f".to_string(), size: 0 };
    db.insert("ik:7", other.format()).unwrap();
    assert_eq!(index.get_item(7), Err(IndexError::Corrupt));
}

#[test]
fn insert_child_then_lookup_child() {
    let (db, mut index) = open("/data");
    assert_eq!(index.lookup_child(2, "f"), Ok(None));
    let item = Item { id: 5, parent: 2, name: "f".to_string(), size: 12 };
    assert_eq!(index.insert_child(&item), Ok(()));
    assert_eq!(index.lookup_child(2, "f"), Ok(Some(5)));
    assert_eq!(index.lookup_child(2, "g"), Ok(None));
    assert_eq!(index.lookup_child(5, "f"), Ok(None));
    assert_eq!(db.get("ipk:2:f").unwrap().unwrap().to_vec(), vec![5, 0, 0, 0, 0, 0, 0, 0]);
    assert_eq!(index.insert_child(&item), Ok(()));
    assert_eq!(index.lookup_child(2, "f"), Ok(Some(5)));
}

#[test]
fn lookup_child_reports_corrupt_mappings() {
    let (db, index) = open("/data");
    db.insert("ipk:2:f", vec![5u8]).unwrap();
    assert_eq!(index.lookup_child(2, "f"), Err(IndexError::Corrupt));
}

#[test]
fn identifiers_start_above_the_root() {
    let (_db, mut index) = open("/data");
    assert_eq!(index.get_next_id(), Ok(None));
    assert_eq!(index.next_id(), Ok(3));
    assert_eq!(index.get_next_id(), Ok(Some(3)));
    assert_eq!(index.next_id(), Ok(4));
    assert_eq!(index.next_id(), Ok(5));
    assert_eq!(index.get_next_id(), Ok(Some(5)));
}

#[test]
fn thousand_identifiers_are_distinct_and_increasing() {
    let (_db, mut index) = open("/data");
    let mut seen = BTreeSet::new();
    let mut last = ROOT_ID;
    for _ in 0..1000 {
        let id = index.next_id().unwrap();
        assert!(id > last);
        last = id;
        seen.insert(id);
    }
    assert_eq!(seen.len(), 1000);
    assert_eq!(last, 1002);
}

#[test]
fn identifiers_go_on_after_a_restart() {
    let db = store();
    let mut ids = Vec::new();
    let mut index = Index::new(db.clone(), "/data".to_string()).unwrap();
    for _ in 0..10 {
        ids.push(index.next_id().unwrap());
    }
    drop(index);
    let mut index = Index::new(db.clone(), "/data".to_string()).unwrap();
    assert_eq!(index.get_next_id(), Ok(Some(12)));
    for _ in 0..10 {
        ids.push(index.next_id().unwrap());
    }
    assert_eq!(ids, (3..23).collect::<Vec<u64>>());
    assert_eq!(db.get("next_id").unwrap().unwrap().to_vec(), 22u64.to_le_bytes().to_vec());
}

#[test]
fn next_id_reports_a_corrupt_counter() {
    let (db, mut index) = open("/data");
    db.insert("next_id", vec![1u8, 2, 3]).unwrap();
    assert_eq!(index.next_id(), Err(IndexError::Corrupt));
    assert_eq!(index.get_next_id(), Err(IndexError::Corrupt));
    assert_eq!(db.get("next_id").unwrap().unwrap().to_vec(), vec![1u8, 2, 3]);
    db.insert("next_id", 2u64.to_le_bytes().to_vec()).unwrap();
    assert_eq!(index.next_id(), Err(IndexError::Corrupt));
}

#[test]
fn next_id_reports_the_end_of_the_identifiers() {
    let (db, mut index) = open("/data");
    db.insert("next_id", (u64::MAX - 1).to_le_bytes().to_vec()).unwrap();
    assert_eq!(index.next_id(), Ok(u64::MAX));
    assert_eq!(index.next_id(), Err(IndexError::Exhausted));
    assert_eq!(index.next_id(), Err(IndexError::Exhausted));
    assert_eq!(index.get_next_id(), Ok(Some(u64::MAX)));
}

#[test]
fn full_path_along_a_chain() {
    let (_db, mut index) = open("/data");
    let a = Item { id: 3, parent: 2, name: "A".to_string(), size: 0 };
    let b = Item { id: 4, parent: 3, name: "B".to_string(), size: 0 };
    index.insert_item(&a).unwrap();
    index.insert_item(&b).unwrap();
    assert_eq!(index.get_full_path(3), Ok("/data/A".to_string()));
    assert_eq!(index.get_full_path(4), Ok("/data/A/B".to_string()));
}

#[test]
fn full_path_does_not_need_ordered_identifiers() {
    let (_db, mut index) = open("/data");
    let a = Item { id: 9, parent: 2, name: "A".to_string(), size: 0 };
    let b = Item { id: 5, parent: 9, name: "B".to_string(), size: 0 };
    index.insert_item(&a).unwrap();
    index.insert_item(&b).unwrap();
    assert_eq!(index.get_full_path(5), Ok("/data/A/B".to_string()));
}

#[test]
fn full_path_of_missing_item_is_not_found() {
    let (_db, index) = open("/data");
    assert_eq!(index.get_full_path(3), Err(IndexError::NotFound));
}

#[test]
fn full_path_with_missing_ancestor_is_corrupt_graph() {
    let (_db, mut index) = open("/data");
    index.insert_item(&Item { id: 5, parent: 9, name: "x".to_string(), size: 0 }).unwrap();
    assert_eq!(index.get_full_path(5), Err(IndexError::CorruptGraph));
}

#[test]
fn full_path_with_corrupt_ancestor_is_corrupt() {
    let (db, mut index) = open("/data");
    index.insert_item(&Item { id: 5, parent: 9, name: "x".to_string(), size: 0 }).unwrap();
    db.insert("ik:9", vec![0u8; 3]).unwrap();
    assert_eq!(index.get_full_path(5), Err(IndexError::Corrupt));
}

#[test]
fn full_path_on_a_cycle_is_corrupt_graph() {
    let (_db, mut index) = open("/data");
    index.insert_item(&Item { id: 5, parent: 6, name: "x".to_string(), size: 0 }).unwrap();
    index.insert_item(&Item { id: 6, parent: 5, name: "y".to_string(), size: 0 }).unwrap();
    assert_eq!(index.get_full_path(5), Err(IndexError::CorruptGraph));
    assert_eq!(index.get_full_path(6), Err(IndexError::CorruptGraph));
}

#[test]
fn full_path_follows_no_more_parents_than_the_bound() {
    let (_db, mut index) = open("r");
    let deepest = ROOT_ID + MAX_DEPTH as u64 + 1;
    for id in 3..=deepest {
        index.insert_item(&Item { id, parent: id - 1, name: "d".to_string(), size: 0 }).unwrap();
    }
    let path = index.get_full_path(deepest - 1).unwrap();
    assert_eq!(path.len(), 1 + 2 * MAX_DEPTH);
    assert!(path.starts_with("r/d/d"));
    assert_eq!(index.get_full_path(deepest), Err(IndexError::CorruptGraph));
}

#[test]
fn scan_path_joins_parent_path_and_segment() {
    let (_db, mut index) = open("/data");
    index.insert_item(&Item { id: 3, parent: 2, name: "sub".to_string(), size: 0 }).unwrap();
    assert_eq!(index.scan_path(ROOT_ID, ""), Ok("/data/".to_string()));
    assert_eq!(index.scan_path(ROOT_ID, "sub"), Ok("/data/sub".to_string()));
    assert_eq!(index.scan_path(3, ""), Ok("/data/sub/".to_string()));
    assert_eq!(index.scan_path(4, ""), Err(IndexError::NotFound));
}

#[test]
fn scan_of_a_directory_with_a_file_and_a_subdirectory() {
    let (db, mut index) = open("/data");
    let entries = vec![file("a.txt", 10), dir("sub")];
    assert_eq!(index.scan(ROOT_ID, &entries), Ok(vec![4]));
    assert_eq!(item_count(&db), 3);
    let a = index.lookup_child(ROOT_ID, "a.txt").unwrap().unwrap();
    assert_eq!(a, 3);
    assert_eq!(index.get_full_path(a), Ok("/data/a.txt".to_string()));
    let item = index.get_item(a).unwrap();
    assert_eq!(item, Item { id: 3, parent: 2, name: "a.txt".to_string(), size: 10 });
    let sub = index.lookup_child(ROOT_ID, "sub").unwrap().unwrap();
    assert_eq!(index.get_item(sub), Ok(Item { id: 4, parent: 2, name: "sub".to_string(), size: 0 }));
    assert_eq!(index.get_full_path(sub), Ok("/data/sub".to_string()));
    assert_eq!(index.scan(sub, &Vec::new()), Ok(vec![]));
    assert_eq!(item_count(&db), 3);
}

#[test]
fn scan_twice_makes_no_new_items() {
    let (db, mut index) = open("/data");
    let entries = vec![file("a.txt", 10), dir("sub"), file("b", 0)];
    assert_eq!(index.scan(ROOT_ID, &entries), Ok(vec![4]));
    let count = item_count(&db);
    let keys = db.len();
    let counter = index.get_next_id();
    assert_eq!(count, 4);
    assert_eq!(index.scan(ROOT_ID, &entries), Ok(vec![]));
    assert_eq!(item_count(&db), count);
    assert_eq!(db.len(), keys);
    assert_eq!(index.get_next_id(), counter);
}

#[test]
fn scan_passes_over_what_is_mapped_and_adds_the_rest() {
    let (db, mut index) = open("/data");
    assert_eq!(index.scan(ROOT_ID, &vec![file("a", 1)]), Ok(vec![]));
    assert_eq!(index.scan(ROOT_ID, &vec![file("a", 99), dir("d"), dir("e")]), Ok(vec![4, 5]));
    assert_eq!(index.get_item(3).unwrap().size, 1);
    assert_eq!(item_count(&db), 4);
    assert_eq!(index.lookup_child(ROOT_ID, "e"), Ok(Some(5)));
}

#[test]
fn scan_takes_a_name_once() {
    let (db, mut index) = open("/data");
    assert_eq!(index.scan(ROOT_ID, &vec![dir("d"), dir("d"), file("d", 3)]), Ok(vec![3]));
    assert_eq!(item_count(&db), 2);
    assert_eq!(index.get_next_id(), Ok(Some(3)));
}

#[test]
fn scan_below_a_new_directory() {
    let (_db, mut index) = open("/data");
    let dirs = index.scan(ROOT_ID, &vec![dir("sub")]).unwrap();
    assert_eq!(dirs, vec![3]);
    assert_eq!(index.scan_path(3, ""), Ok("/data/sub/".to_string()));
    assert_eq!(index.scan(3, &vec![file("a.txt", 10), file("b.txt", 20)]), Ok(vec![]));
    assert_eq!(index.get_full_path(5), Ok("/data/sub/b.txt".to_string()));
    // The same name below another parent is another item.
    assert_eq!(index.scan(ROOT_ID, &vec![file("a.txt", 1)]), Ok(vec![]));
    assert_eq!(index.lookup_child(ROOT_ID, "a.txt"), Ok(Some(6)));
    assert_eq!(index.lookup_child(3, "a.txt"), Ok(Some(4)));
}

#[test]
fn scan_below_a_missing_parent_is_not_found() {
    let (db, mut index) = open("/data");
    assert_eq!(index.scan(9, &vec![file("a", 1)]), Err(IndexError::NotFound));
    assert_eq!(item_count(&db), 1);
    assert_eq!(index.get_next_id(), Ok(None));
}

#[test]
fn scan_stops_at_a_corrupt_mapping() {
    let (db, mut index) = open("/data");
    db.insert("ipk:2:b", vec![1u8]).unwrap();
    assert_eq!(
        index.scan(ROOT_ID, &vec![file("a", 1), file("b", 2), file("c", 3)]),
        Err(IndexError::Corrupt)
    );
    assert_eq!(index.lookup_child(ROOT_ID, "a"), Ok(Some(3)));
    assert_eq!(index.lookup_child(ROOT_ID, "c"), Ok(None));
    assert_eq!(item_count(&db), 2);
}

#[test]
fn scan_stops_when_no_identifier_is_left() {
    let (db, mut index) = open("/data");
    db.insert("next_id", (u64::MAX - 1).to_le_bytes().to_vec()).unwrap();
    assert_eq!(
        index.scan(ROOT_ID, &vec![file("a", 1), file("b", 2)]),
        Err(IndexError::Exhausted)
    );
    assert_eq!(index.lookup_child(ROOT_ID, "a"), Ok(Some(u64::MAX)));
    assert_eq!(index.lookup_child(ROOT_ID, "b"), Ok(None));
}

#[test]
fn scan_entry_makes_one_item() {
    let (_db, mut index) = open("/data");
    assert_eq!(index.scan_entry(ROOT_ID, &file("a", 7)), Ok(Some(3)));
    assert_eq!(index.scan_entry(ROOT_ID, &file("a", 7)), Ok(None));
    assert_eq!(index.scan_entry(ROOT_ID, &dir("d")), Ok(Some(4)));
    assert_eq!(index.get_item(4).unwrap().size, 0);
}
