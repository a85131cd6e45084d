//! Items and the bytes that record them.
//!
//! A record is laid out in a fixed order: the identifier, the parent's
//! identifier, the length of the name in bytes, the name in UTF-8, and the
//! size. Each number takes eight bytes, least significant first. Bytes that
//! do not follow this layout exactly are no record.

use vstd::prelude::*;
use vstd::bytes::{
    lemma_auto_spec_u64_to_from_le_bytes, spec_u64_from_le_bytes, spec_u64_to_le_bytes,
    u64_from_le_bytes, u64_to_le_bytes,
};
use vstd::slice::{slice_subrange, slice_to_vec};
use vstd::string::*;
use vstd::utf8::{
    decode_utf8, decode_utf8_encode_utf8, encode_utf8, encode_utf8_decode_utf8,
    encode_utf8_valid_utf8, valid_utf8,
};
use crate::error::IndexError;
use crate::keys::{ItemKey, ItemParentKey};

verus! {

/// A named node of the tracked tree: a file or a directory.
///
/// The root's name is the full path of the tracked root; every other name
/// is one segment.
#[derive(Clone, Debug, PartialEq, Eq)]
pub struct Item {
    pub id: u64,
    pub parent: u64,
    pub name: String,
    pub size: u64,
}

/// What an item is, as a plain value.
pub struct ItemView {
    pub id: u64,
    pub parent: u64,
    pub name: Seq<char>,
    pub size: u64,
}

impl View for Item {
    type V = ItemView;

    open spec fn view(&self) -> ItemView {
        ItemView { id: self.id, parent: self.parent, name: self.name@, size: self.size }
    }
}

/// Whether a record can hold the item: the length of its name in bytes
/// fits the eight bytes that the record has for it. Every `Item` does.
pub open spec fn recordable(item: ItemView) -> bool {
    encode_utf8(item.name).len() <= u64::MAX
}

/// The record of an item.
pub open spec fn record(item: ItemView) -> Seq<u8> {
    let name = encode_utf8(item.name);
    spec_u64_to_le_bytes(item.id) + spec_u64_to_le_bytes(item.parent) + spec_u64_to_le_bytes(
        name.len() as u64,
    ) + name + spec_u64_to_le_bytes(item.size)
}

/// The item that `bytes` record, if they are a record.
pub open spec fn parse_record(bytes: Seq<u8>) -> Option<ItemView> {
    if bytes.len() < 32 {
        None
    } else if spec_u64_from_le_bytes(bytes.subrange(16, 24)) != bytes.len() - 32 {
        None
    } else if !valid_utf8(bytes.subrange(24, bytes.len() - 8)) {
        None
    } else {
        Some(
            ItemView {
                id: spec_u64_from_le_bytes(bytes.subrange(0, 8)),
                parent: spec_u64_from_le_bytes(bytes.subrange(8, 16)),
                name: decode_utf8(bytes.subrange(24, bytes.len() - 8)),
                size: spec_u64_from_le_bytes(bytes.subrange(bytes.len() - 8, bytes.len() as int)),
            },
        )
    }
}

/// Reading the record of an item gives the item back.
pub proof fn lemma_record_round_trip(item: ItemView)
    requires
        recordable(item),
    ensures
        parse_record(record(item)) == Some(item),
{
    lemma_auto_spec_u64_to_from_le_bytes();
    encode_utf8_valid_utf8(item.name);
    encode_utf8_decode_utf8(item.name);
    let name = encode_utf8(item.name);
    let bytes = record(item);
    let id = spec_u64_to_le_bytes(item.id);
    let parent = spec_u64_to_le_bytes(item.parent);
    let len = spec_u64_to_le_bytes(name.len() as u64);
    let size = spec_u64_to_le_bytes(item.size);
    assert(bytes.len() == 32 + name.len());
    assert(bytes.subrange(0, 8) =~= id);
    assert(bytes.subrange(8, 16) =~= parent);
    assert(bytes.subrange(16, 24) =~= len);
    assert(bytes.subrange(24, bytes.len() - 8) =~= name);
    assert(bytes.subrange(bytes.len() - 8, bytes.len() as int) =~= size);
}

/// A record is the only encoding of its item: bytes that read as an item
/// are that item's record.
pub proof fn lemma_parse_round_trip(bytes: Seq<u8>)
    requires
        parse_record(bytes) is Some,
    ensures
        recordable(parse_record(bytes)->Some_0),
        record(parse_record(bytes)->Some_0) == bytes,
{
    lemma_auto_spec_u64_to_from_le_bytes();
    let item = parse_record(bytes)->Some_0;
    let name = bytes.subrange(24, bytes.len() - 8);
    decode_utf8_encode_utf8(name);
    assert(encode_utf8(item.name) == name);
    let id = bytes.subrange(0, 8);
    let parent = bytes.subrange(8, 16);
    let len = bytes.subrange(16, 24);
    let size = bytes.subrange(bytes.len() - 8, bytes.len() as int);
    assert(spec_u64_to_le_bytes(item.id) == id);
    assert(spec_u64_to_le_bytes(item.parent) == parent);
    assert(spec_u64_to_le_bytes(item.size) == size);
    assert(name.len() as u64 == spec_u64_from_le_bytes(len));
    assert(spec_u64_to_le_bytes(name.len() as u64) == len);
    assert(record(item) =~= bytes);
}

/// `String::from_utf8` of std. The text comes back exactly when the bytes
/// are well-formed UTF-8, and it is the text that they encode.
#[verifier::external_body]
fn text_from_utf8(bytes: &[u8]) -> (text: Option<String>)
    ensures
        text is Some <==> valid_utf8(bytes@),
        text matches Some(t) ==> encode_utf8(t@) == bytes@,
{
    String::from_utf8(bytes.to_vec()).ok()
}

impl Item {
    /// Whether the item is a root: its own parent.
    pub fn is_root(&self) -> (root: bool)
        ensures
            root == (self.id == self.parent),
    {
        self.id == self.parent
    }

    /// The key of the item.
    pub fn as_key(&self) -> (key: ItemKey)
        ensures
            key.0 == self.id,
    {
        ItemKey(self.id)
    }

    /// The key that leads from the item's parent and name to the item.
    pub fn as_parent_key(&self) -> (key: ItemParentKey)
        ensures
            key.0 == self.parent,
            key.1@ == self.name@,
    {
        ItemParentKey(self.parent, self.name.clone())
    }

    /// The record of the item.
    pub fn format(&self) -> (bytes: Vec<u8>)
        ensures
            recordable(self@),
            bytes@ == record(self@),
    {
        let name: &[u8] = self.name.as_str().as_bytes();
        let mut bytes: Vec<u8> = u64_to_le_bytes(self.id);
        let mut parent: Vec<u8> = u64_to_le_bytes(self.parent);
        bytes.append(&mut parent);
        let mut len: Vec<u8> = u64_to_le_bytes(name.len() as u64);
        bytes.append(&mut len);
        let mut text: Vec<u8> = slice_to_vec(name);
        bytes.append(&mut text);
        let mut size: Vec<u8> = u64_to_le_bytes(self.size);
        bytes.append(&mut size);
        bytes
    }

    /// The item that `value` records. Bytes that are no record are
    /// `Corrupt`.
    pub fn parse(value: &[u8]) -> (r: Result<Item, IndexError>)
        ensures
            match parse_record(value@) {
                Some(item) => r is Ok && r->Ok_0@ == item,
                None => r == Err::<Item, IndexError>(IndexError::Corrupt),
            },
    {
        let total: usize = value.len();
        if total < 32 {
            return Err(IndexError::Corrupt);
        }
        let name_len: u64 = u64_from_le_bytes(slice_subrange(value, 16, 24));
        if name_len != (total - 32) as u64 {
            return Err(IndexError::Corrupt);
        }
        let name_bytes: &[u8] = slice_subrange(value, 24, total - 8);
        match text_from_utf8(name_bytes) {
            None => Err(IndexError::Corrupt),
            Some(name) => {
                proof {
                    encode_utf8_decode_utf8(name@);
                }
                let id: u64 = u64_from_le_bytes(slice_subrange(value, 0, 8));
                let parent: u64 = u64_from_le_bytes(slice_subrange(value, 8, 16));
                let size: u64 = u64_from_le_bytes(slice_subrange(value, total - 8, total));
                Ok(Item { id, parent, name, size })
            },
        }
    }
}

} // verus!
