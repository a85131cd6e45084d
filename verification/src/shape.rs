//! What holds of every index that was opened on an empty store and then
//! only scanned.
//!
//! `well_formed` holds after every step of a scan, whether or not the store
//! failed at it. `fully_mapped` holds whenever no store call has failed: a
//! failure between the two writes of an entry leaves an item that no name
//! leads to, and the next scan makes another for that name.

use vstd::prelude::*;
use crate::counter::{counter_value, issued, lemma_issued, ROOT_ID};
use crate::error::IndexError;
use crate::item::{recordable, ItemView};
use crate::keys::{counter_key, item_key};
use crate::model::{
    child_at, item_at, lemma_with_child, lemma_with_child_elsewhere, lemma_with_issue_elsewhere,
    lemma_with_item, lemma_with_item_elsewhere, opened, root_item, with_child, with_issue,
    with_item,
};
use crate::scan::{entry_item, recordable_listing, scan_entries, scan_entry, scanned, DirEntryView};
use crate::store::held;

verus! {

/// The largest identifier that can be in use: the one that was issued
/// last, or the root's where none was issued.
pub open spec fn high_water(contents: Map<Seq<u8>, Seq<u8>>) -> u64 {
    match counter_value(held(contents, counter_key())) {
        Ok(Some(last)) => last,
        _ => ROOT_ID,
    }
}

/// What holds of the record under the key of `id`, if there is one: it is
/// the record of an item, its identifier was issued, and unless it is the
/// root its parent was made before it and has a record.
pub open spec fn item_well_formed(contents: Map<Seq<u8>, Seq<u8>>, id: u64) -> bool {
    match item_at(contents, id) {
        Err(IndexError::NotFound) => true,
        Err(_) => false,
        Ok(item) => {
            &&& ROOT_ID <= id <= high_water(contents)
            &&& if id == ROOT_ID {
                item.parent == ROOT_ID
            } else {
                item.parent < id && contents.dom().contains(item_key(item.parent))
            }
        },
    }
}

/// What holds of the mapping of `parent` and `name`, if there is one: it
/// leads to an item with that parent and that name.
pub open spec fn child_well_formed(contents: Map<Seq<u8>, Seq<u8>>, parent: u64, name: Seq<char>)
    -> bool {
    match child_at(contents, parent, name) {
        Ok(None) => true,
        Err(_) => false,
        Ok(Some(child)) => item_at(contents, child) matches Ok(item) && item.parent == parent
            && item.name == name,
    }
}

/// The store holds an index: a counter that can be read, the root, and
/// nothing but well-formed items and mappings.
pub open spec fn well_formed(contents: Map<Seq<u8>, Seq<u8>>) -> bool {
    &&& counter_value(held(contents, counter_key())) is Ok
    &&& item_at(contents, ROOT_ID) is Ok
    &&& forall|id: u64| #[trigger] item_well_formed(contents, id)
    &&& forall|parent: u64, name: Seq<char>| #[trigger] child_well_formed(contents, parent, name)
}

/// What holds of the item `id`, if there is one: unless it is the root, it
/// is the item that its parent and its name lead to.
pub open spec fn item_mapped(contents: Map<Seq<u8>, Seq<u8>>, id: u64) -> bool {
    match item_at(contents, id) {
        Ok(item) => id == ROOT_ID || child_at(contents, item.parent, item.name) == Ok::<
            Option<u64>,
            IndexError,
        >(Some(id)),
        Err(_) => true,
    }
}

/// Every item but the root is the one that its parent and its name lead to.
pub open spec fn fully_mapped(contents: Map<Seq<u8>, Seq<u8>>) -> bool {
    forall|id: u64| #[trigger] item_mapped(contents, id)
}

/// An index has exactly one root: the only item that is its own parent has
/// the root's identifier.
pub proof fn lemma_single_root(contents: Map<Seq<u8>, Seq<u8>>, id: u64)
    requires
        well_formed(contents),
        item_at(contents, id) is Ok,
        item_at(contents, id)->Ok_0.parent == id,
    ensures
        id == ROOT_ID,
{
    assert(item_well_formed(contents, id));
}

/// The parent of every item has a record.
pub proof fn lemma_parent_exists(contents: Map<Seq<u8>, Seq<u8>>, id: u64)
    requires
        well_formed(contents),
        item_at(contents, id) is Ok,
    ensures
        item_at(contents, item_at(contents, id)->Ok_0.parent) is Ok,
{
    let parent = item_at(contents, id)->Ok_0.parent;
    assert(item_well_formed(contents, id));
    assert(item_well_formed(contents, parent));
}

/// No identifier above the one that was issued last is in use.
pub proof fn lemma_unissued_unused(contents: Map<Seq<u8>, Seq<u8>>, id: u64)
    requires
        well_formed(contents),
        id > high_water(contents),
    ensures
        item_at(contents, id) == Err::<ItemView, IndexError>(IndexError::NotFound),
{
    assert(item_well_formed(contents, id));
}

/// Among the items of one parent a name occurs once.
pub proof fn lemma_sibling_names_unique(contents: Map<Seq<u8>, Seq<u8>>, a: u64, b: u64)
    requires
        fully_mapped(contents),
        item_at(contents, a) is Ok,
        item_at(contents, b) is Ok,
        a != ROOT_ID,
        b != ROOT_ID,
        item_at(contents, a)->Ok_0.parent == item_at(contents, b)->Ok_0.parent,
        item_at(contents, a)->Ok_0.name == item_at(contents, b)->Ok_0.name,
    ensures
        a == b,
{
    assert(item_mapped(contents, a));
    assert(item_mapped(contents, b));
}

/// Issuing an identifier keeps the index well-formed. The identifier is
/// larger than any that was issued, and unused.
pub proof fn lemma_issue_well_formed(contents: Map<Seq<u8>, Seq<u8>>)
    requires
        well_formed(contents),
    ensures
        well_formed(with_issue(contents)),
        high_water(with_issue(contents)) >= high_water(contents),
        issued(held(contents, counter_key())) matches Ok(id) ==> id == high_water(
            with_issue(contents),
        ) && id > high_water(contents) && item_at(contents, id) == Err::<ItemView, IndexError>(
            IndexError::NotFound,
        ),
        fully_mapped(contents) ==> fully_mapped(with_issue(contents)),
{
    let after = with_issue(contents);
    let before = held(contents, counter_key());
    lemma_with_issue_elsewhere(contents, 0, 0, Seq::empty());
    if issued(before) is Ok {
        lemma_issued(before);
        lemma_unissued_unused(contents, issued(before)->Ok_0);
    }
    assert forall|id: u64| #[trigger] item_well_formed(after, id) by {
        lemma_with_issue_elsewhere(contents, id, 0, Seq::empty());
        assert(item_well_formed(contents, id));
    }
    assert forall|parent: u64, name: Seq<char>| #[trigger]
        child_well_formed(after, parent, name) by {
        assert(child_well_formed(contents, parent, name));
        lemma_with_issue_elsewhere(contents, 0, parent, name);
        if child_at(contents, parent, name) is Ok && child_at(contents, parent, name)->Ok_0
            is Some {
            let child = child_at(contents, parent, name)->Ok_0->Some_0;
            lemma_with_issue_elsewhere(contents, child, parent, name);
        }
    }
    lemma_with_issue_elsewhere(contents, ROOT_ID, 0, Seq::empty());
    if fully_mapped(contents) {
        assert forall|id: u64| #[trigger] item_mapped(after, id) by {
            assert(item_mapped(contents, id));
            let item = item_at(contents, id)->Ok_0;
            lemma_with_issue_elsewhere(contents, id, item.parent, item.name);
        }
    }
}

/// Putting a new item below an item that is there keeps the index
/// well-formed, if the new item's identifier was issued and is unused.
pub proof fn lemma_put_well_formed(contents: Map<Seq<u8>, Seq<u8>>, item: ItemView)
    requires
        well_formed(contents),
        recordable(item),
        item_at(contents, item.id) == Err::<ItemView, IndexError>(IndexError::NotFound),
        ROOT_ID < item.id <= high_water(contents),
        item.parent < item.id,
        item_at(contents, item.parent) is Ok,
    ensures
        well_formed(with_item(contents, item)),
        high_water(with_item(contents, item)) == high_water(contents),
{
    let after = with_item(contents, item);
    lemma_with_item_elsewhere(contents, item, 0, Seq::empty());
    lemma_with_item(contents, item, ROOT_ID);
    assert forall|id: u64| #[trigger] item_well_formed(after, id) by {
        lemma_with_item(contents, item, id);
        assert(item_well_formed(contents, id));
    }
    assert forall|parent: u64, name: Seq<char>| #[trigger]
        child_well_formed(after, parent, name) by {
        assert(child_well_formed(contents, parent, name));
        lemma_with_item_elsewhere(contents, item, parent, name);
        if child_at(contents, parent, name) is Ok && child_at(contents, parent, name)->Ok_0
            is Some {
            let child = child_at(contents, parent, name)->Ok_0->Some_0;
            lemma_with_item(contents, item, child);
        }
    }
}

/// Mapping the parent and the name of an item to it keeps the index
/// well-formed.
pub proof fn lemma_map_well_formed(contents: Map<Seq<u8>, Seq<u8>>, item: ItemView)
    requires
        well_formed(contents),
        item_at(contents, item.id) == Ok::<ItemView, IndexError>(item),
    ensures
        well_formed(with_child(contents, item.parent, item.name, item.id)),
        high_water(with_child(contents, item.parent, item.name, item.id)) == high_water(
            contents,
        ),
{
    let after = with_child(contents, item.parent, item.name, item.id);
    lemma_with_child_elsewhere(contents, item.parent, item.name, item.id, ROOT_ID);
    assert forall|id: u64| #[trigger] item_well_formed(after, id) by {
        lemma_with_child_elsewhere(contents, item.parent, item.name, item.id, id);
        assert(item_well_formed(contents, id));
    }
    assert forall|parent: u64, name: Seq<char>| #[trigger]
        child_well_formed(after, parent, name) by {
        assert(child_well_formed(contents, parent, name));
        lemma_with_child(contents, item.parent, item.name, item.id, parent, name);
        lemma_with_child_elsewhere(contents, item.parent, item.name, item.id, item.id);
        if child_at(contents, parent, name) is Ok && child_at(contents, parent, name)->Ok_0
            is Some {
            let child = child_at(contents, parent, name)->Ok_0->Some_0;
            lemma_with_child_elsewhere(contents, item.parent, item.name, item.id, child);
        }
    }
}

/// Each write of the scan of an entry keeps the index well-formed and the
/// parent in place: the issue of the identifier, the put of the item, and
/// the mapping of the name.
pub proof fn lemma_scan_entry_steps(
    contents: Map<Seq<u8>, Seq<u8>>,
    parent: u64,
    entry: DirEntryView,
)
    requires
        well_formed(contents),
        item_at(contents, parent) is Ok,
        recordable(entry_item(0, parent, entry)),
    ensures
        well_formed(with_issue(contents)),
        item_at(with_issue(contents), parent) is Ok,
        issued(held(contents, counter_key())) is Ok ==> {
            let id = issued(held(contents, counter_key()))->Ok_0;
            let item = entry_item(id, parent, entry);
            let put = with_item(with_issue(contents), item);
            let mapped = with_child(put, parent, entry.name, id);
            &&& id != parent
            &&& item_at(contents, id) == Err::<ItemView, IndexError>(IndexError::NotFound)
            &&& well_formed(put)
            &&& item_at(put, parent) is Ok
            &&& item_at(put, id) == Ok::<ItemView, IndexError>(item)
            &&& well_formed(mapped)
            &&& item_at(mapped, parent) is Ok
            &&& item_at(mapped, id) == Ok::<ItemView, IndexError>(item)
        },
{
    let issue = with_issue(contents);
    lemma_issue_well_formed(contents);
    lemma_with_issue_elsewhere(contents, parent, parent, entry.name);
    if issued(held(contents, counter_key())) is Ok {
        let id = issued(held(contents, counter_key()))->Ok_0;
        let item = entry_item(id, parent, entry);
        assert(item_well_formed(contents, parent));
        lemma_with_issue_elsewhere(contents, id, parent, entry.name);
        lemma_put_well_formed(issue, item);
        let put = with_item(issue, item);
        lemma_with_item(issue, item, parent);
        lemma_with_item(issue, item, id);
        lemma_map_well_formed(put, item);
        lemma_with_child_elsewhere(put, parent, entry.name, id, parent);
        lemma_with_child_elsewhere(put, parent, entry.name, id, id);
    }
}

/// The scan of an entry below an item that is there keeps the index
/// well-formed, and fully mapped if it was.
pub proof fn lemma_scan_entry_well_formed(
    contents: Map<Seq<u8>, Seq<u8>>,
    parent: u64,
    entry: DirEntryView,
)
    requires
        well_formed(contents),
        item_at(contents, parent) is Ok,
        recordable(entry_item(0, parent, entry)),
    ensures
        well_formed(scan_entry(contents, parent, entry).0),
        item_at(scan_entry(contents, parent, entry).0, parent) is Ok,
        fully_mapped(contents) ==> fully_mapped(scan_entry(contents, parent, entry).0),
{
    if child_at(contents, parent, entry.name) == Ok::<Option<u64>, IndexError>(None) {
        let issue = with_issue(contents);
        lemma_scan_entry_steps(contents, parent, entry);
        lemma_issue_well_formed(contents);
        if issued(held(contents, counter_key())) is Ok {
            let id = issued(held(contents, counter_key()))->Ok_0;
            let item = entry_item(id, parent, entry);
            let put = with_item(issue, item);
            let after = with_child(put, parent, entry.name, id);
            if fully_mapped(contents) {
                assert forall|other: u64| #[trigger] item_mapped(after, other) by {
                    assert(item_mapped(contents, other));
                    let found = item_at(after, other)->Ok_0;
                    lemma_with_child_elsewhere(put, parent, entry.name, id, other);
                    lemma_with_item(issue, item, other);
                    lemma_with_child(put, parent, entry.name, id, found.parent, found.name);
                    if other != id {
                        lemma_with_issue_elsewhere(contents, other, found.parent, found.name);
                        lemma_with_item_elsewhere(issue, item, found.parent, found.name);
                    }
                }
            }
        }
    }
}

/// The scan of a listing below an item that is there keeps the index
/// well-formed, and fully mapped if it was.
pub proof fn lemma_scan_entries_well_formed(
    contents: Map<Seq<u8>, Seq<u8>>,
    parent: u64,
    entries: Seq<DirEntryView>,
)
    requires
        well_formed(contents),
        item_at(contents, parent) is Ok,
        recordable_listing(parent, entries),
    ensures
        well_formed(scan_entries(contents, parent, entries).0),
        item_at(scan_entries(contents, parent, entries).0, parent) is Ok,
        fully_mapped(contents) ==> fully_mapped(scan_entries(contents, parent, entries).0),
    decreases entries.len(),
{
    if entries.len() > 0 {
        let front = entries.drop_last();
        assert(recordable_listing(parent, front)) by {
            assert forall|i: int| 0 <= i < front.len() implies recordable(
                #[trigger] entry_item(0, parent, front[i]),
            ) by {
                assert(front[i] == entries[i]);
            }
        }
        lemma_scan_entries_well_formed(contents, parent, front);
        let before = scan_entries(contents, parent, front);
        assert(recordable(entry_item(0, parent, entries[entries.len() - 1])));
        lemma_scan_entry_well_formed(before.0, parent, entries.last());
    }
}

/// A scan keeps the index well-formed, and fully mapped if it was.
pub proof fn lemma_scanned_well_formed(
    contents: Map<Seq<u8>, Seq<u8>>,
    parent: u64,
    entries: Seq<DirEntryView>,
)
    requires
        well_formed(contents),
        recordable_listing(parent, entries),
    ensures
        well_formed(scanned(contents, parent, entries).0),
        fully_mapped(contents) ==> fully_mapped(scanned(contents, parent, entries).0),
{
    if item_at(contents, parent) is Ok {
        lemma_scan_entries_well_formed(contents, parent, entries);
    }
}

/// An index that is opened on an empty store is well-formed and fully
/// mapped, and its root has the name that was given.
pub proof fn lemma_opened_fresh(root: Seq<char>)
    requires
        recordable(root_item(root)),
    ensures
        opened(Map::empty(), root) is Ok,
        well_formed(opened(Map::empty(), root)->Ok_0),
        fully_mapped(opened(Map::empty(), root)->Ok_0),
        item_at(opened(Map::empty(), root)->Ok_0, ROOT_ID) == Ok::<ItemView, IndexError>(
            root_item(root),
        ),
{
    let empty = Map::<Seq<u8>, Seq<u8>>::empty();
    let item = root_item(root);
    let after = with_item(empty, item);
    lemma_with_item(empty, item, ROOT_ID);
    lemma_with_item_elsewhere(empty, item, 0, Seq::empty());
    assert forall|id: u64| #[trigger] item_well_formed(after, id) by {
        lemma_with_item(empty, item, id);
    }
    assert forall|parent: u64, name: Seq<char>| #[trigger]
        child_well_formed(after, parent, name) by {
        lemma_with_item_elsewhere(empty, item, parent, name);
    }
    assert forall|id: u64| #[trigger] item_mapped(after, id) by {
        lemma_with_item(empty, item, id);
    }
}

/// Opening changes nothing in a store that holds an index.
pub proof fn lemma_opened_well_formed(contents: Map<Seq<u8>, Seq<u8>>, root: Seq<char>)
    requires
        well_formed(contents),
    ensures
        opened(contents, root) == Ok::<Map<Seq<u8>, Seq<u8>>, IndexError>(contents),
{
    assert(item_well_formed(contents, ROOT_ID));
}

/// Opening is idempotent: on a store that an index was opened on, opening
/// again changes nothing, whatever root is given.
pub proof fn lemma_opened_idempotent(
    contents: Map<Seq<u8>, Seq<u8>>,
    root: Seq<char>,
    again: Seq<char>,
)
    requires
        recordable(root_item(root)),
        opened(contents, root) is Ok,
    ensures
        opened(opened(contents, root)->Ok_0, again) == opened(contents, root),
{
    lemma_with_item(contents, root_item(root), ROOT_ID);
}

} // verus!
