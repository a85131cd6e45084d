//! The index: the store handle, the tracked root, and the operations on
//! them.
//!
//! Every operation reads or writes the store, and the store can fail at any
//! call. An operation then returns `Io`. Whenever it returns anything else,
//! its contract says exactly what.

use vstd::prelude::*;
use vstd::bytes::spec_u64_from_le_bytes;
use vstd::string::*;
use crate::counter::{counter_from, counter_value, issued, issued_from, ROOT_ID};
use crate::error::IndexError;
use crate::item::{recordable, Item, ItemView};
use crate::keys::{counter_key, counter_key_string, ItemKey, ItemParentKey};
use crate::model::{
    child_at, full_path, item_at, join, lemma_with_item, opened, resolve, with_child, with_issue,
    with_item, MAX_DEPTH,
};
use crate::store::{held, store_advance, store_contents, store_get, store_insert};

verus! {

/// An index over one store, rooted at one path of the filesystem.
pub struct Index {
    db: sled::Db,
    root: String,
}

/// Turns a failure of the store into `Io` and keeps what succeeded.
pub fn settle<T>(outcome: Result<T, sled::Error>) -> (r: Result<T, IndexError>)
    ensures
        outcome matches Ok(value) ==> r == Ok::<T, IndexError>(value),
        outcome is Err ==> r == Err::<T, IndexError>(IndexError::Io),
{
    match outcome {
        Ok(value) => Ok(value),
        Err(_) => Err(IndexError::Io),
    }
}

/// What the store holds under a key, as a plain value.
pub open spec fn found_view(found: Option<Vec<u8>>) -> Option<Seq<u8>> {
    match found {
        Some(bytes) => Some(bytes@),
        None => None,
    }
}

/// The item `id`, read from what the store holds under its key.
pub fn item_from(id: u64, found: Option<Vec<u8>>) -> (r: Result<Item, IndexError>)
    ensures
        match found_view(found) {
            None => r == Err::<Item, IndexError>(IndexError::NotFound),
            Some(bytes) => match crate::item::parse_record(bytes) {
                Some(item) => if item.id == id {
                    r is Ok && r->Ok_0@ == item
                } else {
                    r == Err::<Item, IndexError>(IndexError::Corrupt)
                },
                None => r == Err::<Item, IndexError>(IndexError::Corrupt),
            },
        },
{
    match found {
        None => Err(IndexError::NotFound),
        Some(bytes) => match Item::parse(bytes.as_slice()) {
            Ok(item) => if item.id == id {
                Ok(item)
            } else {
                Err(IndexError::Corrupt)
            },
            Err(_) => Err(IndexError::Corrupt),
        },
    }
}

/// The identifier of a child, read from what the store holds under the
/// key of its parent and name.
pub fn child_from(found: Option<Vec<u8>>) -> (r: Result<Option<u64>, IndexError>)
    ensures
        match found_view(found) {
            None => r == Ok::<Option<u64>, IndexError>(None),
            Some(bytes) => if bytes.len() == 8 {
                r == Ok::<Option<u64>, IndexError>(Some(spec_u64_from_le_bytes(bytes)))
            } else {
                r == Err::<Option<u64>, IndexError>(IndexError::Corrupt)
            },
        },
{
    match found {
        None => Ok(None),
        Some(bytes) => if bytes.len() == 8 {
            Ok(Some(ItemKey::parse(bytes.as_slice()).0))
        } else {
            Err(IndexError::Corrupt)
        },
    }
}

/// The error of a walk that failed at an item: a missing ancestor is a
/// corrupt graph, a missing start is not found.
pub open spec fn walk_error(e: IndexError, ancestor: bool) -> IndexError {
    if ancestor && e == IndexError::NotFound {
        IndexError::CorruptGraph
    } else {
        e
    }
}

/// The path of an item, from the path of the ancestor that a walk has
/// reached and the segments below it.
pub open spec fn grafted(reached: Result<Seq<char>, IndexError>, below: Seq<char>, ancestor: bool)
    -> Result<Seq<char>, IndexError> {
    match reached {
        Ok(dir) => Ok(dir + below),
        Err(e) => Err(walk_error(e, ancestor)),
    }
}

impl Index {
    /// What the store of the index holds.
    pub closed spec fn contents(&self) -> Map<Seq<u8>, Seq<u8>> {
        store_contents(self.db)
    }

    /// The path that the index tracks.
    pub closed spec fn root_path(&self) -> Seq<char> {
        self.root@
    }

    /// Opens the index on a store. A root that the store holds is kept, and
    /// the index tracks its name; where it holds none, the root is made,
    /// with `root` as its name.
    pub fn new(db: sled::Db, root: String) -> (r: Result<Index, IndexError>)
        ensures
            r matches Ok(index) ==> {
                &&& opened(store_contents(db), root@) == Ok::<Map<Seq<u8>, Seq<u8>>, IndexError>(
                    index.contents(),
                )
                &&& item_at(index.contents(), ROOT_ID) is Ok
                &&& item_at(index.contents(), ROOT_ID)->Ok_0.parent == ROOT_ID
                &&& item_at(index.contents(), ROOT_ID)->Ok_0.name == index.root_path()
                &&& full_path(index.contents(), ROOT_ID) == Ok::<Seq<char>, IndexError>(
                    index.root_path(),
                )
            },
            r matches Err(e) ==> e == IndexError::Io || opened(store_contents(db), root@) == Err::<
                Map<Seq<u8>, Seq<u8>>,
                IndexError,
            >(e),
    {
        let mut index = Index { db, root };
        match index.get_item(ROOT_ID) {
            Ok(item) => {
                if item.parent == ROOT_ID {
                    index.root = item.name;
                    Ok(index)
                } else {
                    Err(IndexError::CorruptGraph)
                }
            },
            Err(IndexError::NotFound) => {
                let item = Item { id: ROOT_ID, parent: ROOT_ID, name: index.root.clone(), size: 0 };
                match index.insert_item(&item) {
                    Ok(()) => {
                        proof {
                            lemma_with_item(store_contents(db), item@, ROOT_ID);
                        }
                        Ok(index)
                    },
                    Err(e) => Err(e),
                }
            },
            Err(e) => Err(e),
        }
    }

    /// The path that the index tracks.
    pub fn root(&self) -> (root: &str)
        ensures
            root@ == self.root_path(),
    {
        self.root.as_str()
    }

    /// Fetches the item `id`.
    pub fn get_item(&self, id: u64) -> (r: Result<Item, IndexError>)
        ensures
            r matches Ok(item) ==> item_at(self.contents(), id) == Ok::<ItemView, IndexError>(
                item@,
            ),
            r matches Err(e) ==> e == IndexError::Io || item_at(self.contents(), id) == Err::<
                ItemView,
                IndexError,
            >(e),
    {
        let key: String = ItemKey(id).to_string();
        match settle(store_get(&self.db, key.as_str().as_bytes())) {
            Ok(found) => item_from(id, found),
            Err(e) => Err(e),
        }
    }

    /// Puts the record of `item` under its key, in place of any that is
    /// there.
    pub fn insert_item(&mut self, item: &Item) -> (r: Result<(), IndexError>)
        ensures
            final(self).root_path() == old(self).root_path(),
            recordable(item@),
            r is Ok ==> final(self).contents() == with_item(old(self).contents(), item@),
            r matches Err(e) ==> e == IndexError::Io && (final(self).contents() == old(
                self,
            ).contents() || final(self).contents() == with_item(old(self).contents(), item@)),
    {
        let key: String = item.as_key().to_string();
        let value: Vec<u8> = item.format();
        match settle(store_insert(&mut self.db, key.as_str().as_bytes(), value.as_slice())) {
            Ok(_) => Ok(()),
            Err(e) => Err(e),
        }
    }

    /// Maps the parent and the name of `item` to its identifier, in place
    /// of any mapping that is there.
    pub fn insert_child(&mut self, item: &Item) -> (r: Result<(), IndexError>)
        ensures
            final(self).root_path() == old(self).root_path(),
            r is Ok ==> final(self).contents() == with_child(
                old(self).contents(),
                item.parent,
                item.name@,
                item.id,
            ),
            r matches Err(e) ==> e == IndexError::Io && (final(self).contents() == old(
                self,
            ).contents() || final(self).contents() == with_child(
                old(self).contents(),
                item.parent,
                item.name@,
                item.id,
            )),
    {
        let key: String = item.as_parent_key().to_string();
        let value: Vec<u8> = item.as_key().format();
        match settle(store_insert(&mut self.db, key.as_str().as_bytes(), value.as_slice())) {
            Ok(_) => Ok(()),
            Err(e) => Err(e),
        }
    }

    /// Looks up the child of `parent` that is called `name`.
    pub fn lookup_child(&self, parent: u64, name: &str) -> (r: Result<Option<u64>, IndexError>)
        ensures
            r == Err::<Option<u64>, IndexError>(IndexError::Io) || r == child_at(
                self.contents(),
                parent,
                name@,
            ),
    {
        let key: String = ItemParentKey(parent, String::from_str(name)).to_string();
        match settle(store_get(&self.db, key.as_str().as_bytes())) {
            Ok(found) => child_from(found),
            Err(e) => Err(e),
        }
    }

    /// The identifier that was issued last, if any was.
    pub fn get_next_id(&self) -> (r: Result<Option<u64>, IndexError>)
        ensures
            r == Err::<Option<u64>, IndexError>(IndexError::Io) || r == counter_value(
                held(self.contents(), counter_key()),
            ),
    {
        let key: String = counter_key_string();
        match settle(store_get(&self.db, key.as_str().as_bytes())) {
            Ok(found) => counter_from(found),
            Err(e) => Err(e),
        }
    }

    /// Issues the next identifier. The store advances the counter in one
    /// step of its own, before the identifier is returned.
    pub fn next_id(&mut self) -> (r: Result<u64, IndexError>)
        ensures
            final(self).root_path() == old(self).root_path(),
            r != Err::<u64, IndexError>(IndexError::Io) ==> r == issued(
                held(old(self).contents(), counter_key()),
            ) && final(self).contents() == with_issue(old(self).contents()),
            r == Err::<u64, IndexError>(IndexError::Io) ==> final(self).contents() == old(
                self,
            ).contents() || final(self).contents() == with_issue(old(self).contents()),
    {
        let key: String = counter_key_string();
        match settle(store_advance(&mut self.db, key.as_str().as_bytes())) {
            Ok(before) => issued_from(before),
            Err(e) => Err(e),
        }
    }

    /// The full path of the item `id`: the root's name, and below it the
    /// names of the items that lead to `id`, each after a separator.
    pub fn get_full_path(&self, id: u64) -> (r: Result<String, IndexError>)
        ensures
            r matches Ok(path) ==> full_path(self.contents(), id) == Ok::<Seq<char>, IndexError>(
                path@,
            ),
            r matches Err(e) ==> e == IndexError::Io || full_path(self.contents(), id) == Err::<
                Seq<char>,
                IndexError,
            >(e),
    {
        let mut at: u64 = id;
        let mut below: String = String::new();
        let mut steps: usize = 0;
        loop
            invariant
                steps <= MAX_DEPTH,
                full_path(self.contents(), id) == grafted(
                    resolve(self.contents(), at, (MAX_DEPTH - steps) as nat),
                    below@,
                    steps > 0,
                ),
            decreases MAX_DEPTH - steps,
        {
            let item: Item = match self.get_item(at) {
                Ok(item) => item,
                Err(e) => {
                    if steps > 0 && e == IndexError::NotFound {
                        return Err(IndexError::CorruptGraph);
                    }
                    return Err(e);
                },
            };
            if item.is_root() {
                let mut path: String = item.name;
                path.append(below.as_str());
                return Ok(path);
            }
            if steps == MAX_DEPTH {
                return Err(IndexError::CorruptGraph);
            }
            proof {
                reveal_strlit("/");
            }
            let ghost dir = resolve(self.contents(), item.parent, (MAX_DEPTH - steps - 1) as nat);
            let ghost old_below = below@;
            let mut longer: String = String::from_str("/");
            longer.append(item.name.as_str());
            longer.append(below.as_str());
            proof {
                assert(longer@ =~= seq!['/'] + item.name@ + old_below);
                if dir is Ok {
                    assert(join(dir->Ok_0, item.name@) + old_below =~= dir->Ok_0 + longer@);
                }
            }
            below = longer;
            at = item.parent;
            steps = steps + 1;
        }
    }

    /// The directory that a scan reads: the full path of `parent`, joined
    /// with `name`.
    pub fn scan_path(&self, parent: u64, name: &str) -> (r: Result<String, IndexError>)
        ensures
            r matches Ok(path) ==> full_path(self.contents(), parent) is Ok && path@ == join(
                full_path(self.contents(), parent)->Ok_0,
                name@,
            ),
            r matches Err(e) ==> e == IndexError::Io || full_path(self.contents(), parent) == Err::<
                Seq<char>,
                IndexError,
            >(e),
    {
        match self.get_full_path(parent) {
            Ok(dir) => {
                proof {
                    reveal_strlit("/");
                }
                let mut path: String = dir;
                path.append("/");
                path.append(name);
                assert(path@ =~= join(full_path(self.contents(), parent)->Ok_0, name@));
                Ok(path)
            },
            Err(e) => Err(e),
        }
    }
}

} // verus!
