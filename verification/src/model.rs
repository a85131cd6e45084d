//! What the contents of the store mean: the items, the child mappings and
//! the paths that they hold.

use vstd::prelude::*;
use vstd::bytes::{
    lemma_auto_spec_u64_to_from_le_bytes, spec_u64_from_le_bytes, spec_u64_to_le_bytes,
};
use crate::counter::{advanced, ROOT_ID};
use crate::error::IndexError;
use crate::item::{lemma_record_round_trip, parse_record, record, recordable, ItemView};
use crate::keys::{
    child_key, counter_key, item_key, lemma_child_key_injective, lemma_item_key_injective,
    lemma_key_shapes_disjoint,
};
use crate::store::{held, replaced};

verus! {

/// The longest chain of parents that a path may follow. No path that the
/// filesystem accepts has as many segments.
pub const MAX_DEPTH: usize = 4096;

/// The character between the segments of a path.
pub const SEPARATOR: char = '/';

/// The item that `contents` holds for `id`. `NotFound` where there is no
/// record under its key; `Corrupt` where what is there is no record, or
/// the record of an item with another identifier.
pub open spec fn item_at(contents: Map<Seq<u8>, Seq<u8>>, id: u64) -> Result<
    ItemView,
    IndexError,
> {
    match held(contents, item_key(id)) {
        None => Err(IndexError::NotFound),
        Some(bytes) => match parse_record(bytes) {
            Some(item) => if item.id == id {
                Ok(item)
            } else {
                Err(IndexError::Corrupt)
            },
            None => Err(IndexError::Corrupt),
        },
    }
}

/// The identifier that `contents` maps `parent` and `name` to, if any.
/// `Corrupt` where what is mapped is not an identifier's eight bytes.
pub open spec fn child_at(contents: Map<Seq<u8>, Seq<u8>>, parent: u64, name: Seq<char>) -> Result<
    Option<u64>,
    IndexError,
> {
    match held(contents, child_key(parent, name)) {
        None => Ok(None),
        Some(bytes) => if bytes.len() == 8 {
            Ok(Some(spec_u64_from_le_bytes(bytes)))
        } else {
            Err(IndexError::Corrupt)
        },
    }
}

/// `contents` with the record of `item` under its key.
pub open spec fn with_item(contents: Map<Seq<u8>, Seq<u8>>, item: ItemView) -> Map<
    Seq<u8>,
    Seq<u8>,
> {
    contents.insert(item_key(item.id), record(item))
}

/// `contents` with `parent` and `name` mapped to `id`.
pub open spec fn with_child(
    contents: Map<Seq<u8>, Seq<u8>>,
    parent: u64,
    name: Seq<char>,
    id: u64,
) -> Map<Seq<u8>, Seq<u8>> {
    contents.insert(child_key(parent, name), spec_u64_to_le_bytes(id))
}

/// `contents` after the next identifier has been asked for.
pub open spec fn with_issue(contents: Map<Seq<u8>, Seq<u8>>) -> Map<Seq<u8>, Seq<u8>> {
    replaced(contents, counter_key(), advanced(held(contents, counter_key())))
}

/// The path of `name` inside the directory `dir`.
pub open spec fn join(dir: Seq<char>, name: Seq<char>) -> Seq<char> {
    dir + seq![SEPARATOR] + name
}

/// The path of the item `id`, following at most `fuel` parents.
///
/// A root's path is its name. Any other item's path is its parent's path
/// joined with its name. An ancestor without a record is `CorruptGraph`,
/// and so is a chain that does not reach a root within `fuel` parents, as
/// every cycle does.
pub open spec fn resolve(contents: Map<Seq<u8>, Seq<u8>>, id: u64, fuel: nat) -> Result<
    Seq<char>,
    IndexError,
>
    decreases fuel,
{
    match item_at(contents, id) {
        Err(e) => Err(e),
        Ok(item) => if item.parent == item.id {
            Ok(item.name)
        } else if fuel == 0 {
            Err(IndexError::CorruptGraph)
        } else {
            match resolve(contents, item.parent, (fuel - 1) as nat) {
                Ok(dir) => Ok(join(dir, item.name)),
                Err(IndexError::NotFound) => Err(IndexError::CorruptGraph),
                Err(e) => Err(e),
            }
        },
    }
}

/// The full path of the item `id`.
pub open spec fn full_path(contents: Map<Seq<u8>, Seq<u8>>, id: u64) -> Result<
    Seq<char>,
    IndexError,
> {
    resolve(contents, id, MAX_DEPTH as nat)
}

/// The root item of an index that tracks `root`.
pub open spec fn root_item(root: Seq<char>) -> ItemView {
    ItemView { id: ROOT_ID, parent: ROOT_ID, name: root, size: 0 }
}

/// What the store holds once an index that tracks `root` has been opened on
/// `contents`. A root that is there is kept, whatever its name; where none
/// is there, one is made. A record under the root's identifier that is not
/// a root's is `CorruptGraph`.
pub open spec fn opened(contents: Map<Seq<u8>, Seq<u8>>, root: Seq<char>) -> Result<
    Map<Seq<u8>, Seq<u8>>,
    IndexError,
> {
    match item_at(contents, ROOT_ID) {
        Ok(item) => if item.parent == ROOT_ID {
            Ok(contents)
        } else {
            Err(IndexError::CorruptGraph)
        },
        Err(IndexError::NotFound) => Ok(with_item(contents, root_item(root))),
        Err(e) => Err(e),
    }
}

/// An item that has been put is the item that is got, and every other
/// identifier leads to what it led to before.
pub proof fn lemma_with_item(contents: Map<Seq<u8>, Seq<u8>>, item: ItemView, other: u64)
    requires
        recordable(item),
    ensures
        item_at(with_item(contents, item), item.id) == Ok::<ItemView, IndexError>(item),
        other != item.id ==> item_at(with_item(contents, item), other) == item_at(contents, other),
{
    lemma_record_round_trip(item);
    if other != item.id {
        if item_key(other) == item_key(item.id) {
            lemma_item_key_injective(other, item.id);
        }
    }
}

/// Putting an item changes no child mapping and not the counter.
pub proof fn lemma_with_item_elsewhere(
    contents: Map<Seq<u8>, Seq<u8>>,
    item: ItemView,
    parent: u64,
    name: Seq<char>,
)
    ensures
        child_at(with_item(contents, item), parent, name) == child_at(contents, parent, name),
        held(with_item(contents, item), counter_key()) == held(contents, counter_key()),
{
    lemma_key_shapes_disjoint(item.id, parent, name);
}

/// A child that has been mapped is the child that is looked up, and every
/// other pair of parent and name leads to what it led to before.
pub proof fn lemma_with_child(
    contents: Map<Seq<u8>, Seq<u8>>,
    parent: u64,
    name: Seq<char>,
    id: u64,
    other_parent: u64,
    other_name: Seq<char>,
)
    ensures
        child_at(with_child(contents, parent, name, id), parent, name) == Ok::<
            Option<u64>,
            IndexError,
        >(Some(id)),
        other_parent != parent || other_name != name ==> child_at(
            with_child(contents, parent, name, id),
            other_parent,
            other_name,
        ) == child_at(contents, other_parent, other_name),
{
    lemma_auto_spec_u64_to_from_le_bytes();
    if other_parent != parent || other_name != name {
        if child_key(other_parent, other_name) == child_key(parent, name) {
            lemma_child_key_injective(other_parent, other_name, parent, name);
        }
    }
}

/// Mapping a child changes no item and not the counter.
pub proof fn lemma_with_child_elsewhere(
    contents: Map<Seq<u8>, Seq<u8>>,
    parent: u64,
    name: Seq<char>,
    id: u64,
    other: u64,
)
    ensures
        item_at(with_child(contents, parent, name, id), other) == item_at(contents, other),
        held(with_child(contents, parent, name, id), counter_key()) == held(
            contents,
            counter_key(),
        ),
{
    lemma_key_shapes_disjoint(other, parent, name);
}

/// Issuing an identifier changes no item and no child mapping.
pub proof fn lemma_with_issue_elsewhere(
    contents: Map<Seq<u8>, Seq<u8>>,
    id: u64,
    parent: u64,
    name: Seq<char>,
)
    ensures
        item_at(with_issue(contents), id) == item_at(contents, id),
        child_at(with_issue(contents), parent, name) == child_at(contents, parent, name),
        held(with_issue(contents), counter_key()) == advanced(held(contents, counter_key())),
{
    lemma_key_shapes_disjoint(id, parent, name);
}

/// An identifier that no item was put under is not found: neither the put
/// of an item with another identifier, nor the mapping of a child, nor the
/// issue of an identifier puts anything under it.
pub proof fn lemma_not_found_kept(
    contents: Map<Seq<u8>, Seq<u8>>,
    id: u64,
    item: ItemView,
    parent: u64,
    name: Seq<char>,
    child: u64,
)
    requires
        item_at(contents, id) == Err::<ItemView, IndexError>(IndexError::NotFound),
    ensures
        item_at(Map::empty(), id) == Err::<ItemView, IndexError>(IndexError::NotFound),
        item.id != id ==> item_at(with_item(contents, item), id) == Err::<ItemView, IndexError>(
            IndexError::NotFound,
        ),
        item_at(with_child(contents, parent, name, child), id) == Err::<ItemView, IndexError>(
            IndexError::NotFound,
        ),
        item_at(with_issue(contents), id) == Err::<ItemView, IndexError>(IndexError::NotFound),
{
    if item.id != id && item_key(item.id) == item_key(id) {
        lemma_item_key_injective(item.id, id);
    }
    lemma_with_child_elsewhere(contents, parent, name, child, id);
    lemma_with_issue_elsewhere(contents, id, parent, name);
}

/// The path of a root is its name, exactly.
pub proof fn lemma_root_path(contents: Map<Seq<u8>, Seq<u8>>, id: u64)
    requires
        item_at(contents, id) is Ok,
        item_at(contents, id)->Ok_0.parent == id,
    ensures
        full_path(contents, id) == Ok::<Seq<char>, IndexError>(item_at(contents, id)->Ok_0.name),
{
}

/// Along a chain from a root over `a` to `b`, the path of `b` is the
/// root's name joined with the name of `a`, joined with the name of `b`.
pub proof fn lemma_chain_path(contents: Map<Seq<u8>, Seq<u8>>, root: u64, a: u64, b: u64)
    requires
        item_at(contents, root) is Ok,
        item_at(contents, a) is Ok,
        item_at(contents, b) is Ok,
        item_at(contents, root)->Ok_0.parent == root,
        item_at(contents, a)->Ok_0.parent == root,
        item_at(contents, b)->Ok_0.parent == a,
        a != root,
        b != a,
    ensures
        full_path(contents, b) == Ok::<Seq<char>, IndexError>(
            join(
                join(item_at(contents, root)->Ok_0.name, item_at(contents, a)->Ok_0.name),
                item_at(contents, b)->Ok_0.name,
            ),
        ),
{
    reveal_with_fuel(resolve, 3);
}

} // verus!
