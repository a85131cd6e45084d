//! The store: an embedded, ordered map from byte keys to byte values.
//!
//! Nothing in this file is proved. It says what the index takes from the
//! store on trust. All of it is said of a store that has one writer, the
//! index that owns the handle: the index is built on that rule.

use vstd::prelude::*;
use crate::counter::{advance_counter, advanced};

verus! {

/// The handle of an open store.
#[verifier::external_type_specification]
#[verifier::external_body]
pub struct ExDb(sled::Db);

/// A failure of the store.
#[verifier::external_type_specification]
#[verifier::external_body]
pub struct ExStoreError(sled::Error);

/// What the store holds: the keys of its default tree, each with its value.
pub uninterp spec fn store_contents(db: sled::Db) -> Map<Seq<u8>, Seq<u8>>;

/// What `contents` holds under `key`, if anything.
pub open spec fn held(contents: Map<Seq<u8>, Seq<u8>>, key: Seq<u8>) -> Option<Seq<u8>> {
    if contents.dom().contains(key) {
        Some(contents[key])
    } else {
        None
    }
}

/// `contents` with what it holds under `key` replaced by `value`: the key
/// is gone where `value` is none.
pub open spec fn replaced(
    contents: Map<Seq<u8>, Seq<u8>>,
    key: Seq<u8>,
    value: Option<Seq<u8>>,
) -> Map<Seq<u8>, Seq<u8>> {
    match value {
        Some(bytes) => contents.insert(key, bytes),
        None => contents.remove(key),
    }
}

/// `sled::Tree::get`, on the default tree. Where the call succeeds, it
/// returns what the store holds under the key.
#[verifier::external_body]
pub(crate) fn store_get(db: &sled::Db, key: &[u8]) -> (r: Result<Option<Vec<u8>>, sled::Error>)
    ensures
        r matches Ok(Some(value)) ==> held(store_contents(*db), key@) == Some(value@),
        r matches Ok(None) ==> held(store_contents(*db), key@) is None,
{
    db.get(key).map(|found| found.map(|value| value.to_vec()))
}

/// `sled::Tree::insert`, on the default tree. Where the call succeeds, the
/// store holds the value under the key and is otherwise as before, and the
/// call returns what the key held before. Where it fails, the failure may
/// have come before or after the write took effect: the store is as
/// before, or it holds the value.
#[verifier::external_body]
pub(crate) fn store_insert(db: &mut sled::Db, key: &[u8], value: &[u8]) -> (r: Result<
    Option<Vec<u8>>,
    sled::Error,
>)
    ensures
        r is Ok ==> store_contents(*final(db)) == store_contents(*old(db)).insert(key@, value@),
        r matches Ok(Some(before)) ==> held(store_contents(*old(db)), key@) == Some(before@),
        r matches Ok(None) ==> held(store_contents(*old(db)), key@) is None,
        r is Err ==> store_contents(*final(db)) == store_contents(*old(db)) || store_contents(
            *final(db),
        ) == store_contents(*old(db)).insert(key@, value@),
{
    db.insert(key, value).map(|before| before.map(|value| value.to_vec()))
}

/// `sled::Tree::fetch_and_update`, on the default tree, with the function
/// that advances the identifier counter. Where the call succeeds, it
/// returns what the key held before, and the store holds under the key what
/// the function makes of that. Where it fails, the failure may have come
/// before or after the write took effect.
#[verifier::external_body]
pub(crate) fn store_advance(db: &mut sled::Db, key: &[u8]) -> (r: Result<
    Option<Vec<u8>>,
    sled::Error,
>)
    ensures
        r is Ok ==> store_contents(*final(db)) == replaced(
            store_contents(*old(db)),
            key@,
            advanced(held(store_contents(*old(db)), key@)),
        ),
        r matches Ok(Some(before)) ==> held(store_contents(*old(db)), key@) == Some(before@),
        r matches Ok(None) ==> held(store_contents(*old(db)), key@) is None,
        r is Err ==> store_contents(*final(db)) == store_contents(*old(db)) || store_contents(
            *final(db),
        ) == replaced(
            store_contents(*old(db)),
            key@,
            advanced(held(store_contents(*old(db)), key@)),
        ),
{
    db.fetch_and_update(key, |held| advance_counter(held)).map(
        |before| before.map(|value| value.to_vec()),
    )
}

} // verus!
