//! The keys under which the store holds the index.
//!
//! There are three shapes. An item key leads from an identifier to the
//! item's record. A parent key leads from a parent's identifier and a name
//! to the identifier of the child of that name. The counter key leads to
//! the identifier that was issued last. Each shape begins with a prefix of
//! its own, so no key of one shape is a key of another.

use vstd::prelude::*;
use vstd::bytes::{
    lemma_auto_spec_u64_to_from_le_bytes, spec_u64_from_le_bytes, spec_u64_to_le_bytes,
    u64_from_le_bytes, u64_to_le_bytes,
};
use vstd::string::*;
use vstd::utf8::{encode_utf8, encode_utf8_decode_utf8};
use crate::digits::{append_decimal, decimal, is_digit, lemma_decimal, lemma_decimal_injective};

verus! {

/// The text of the key of the item `id`: `ik:` and the identifier in decimal.
pub open spec fn item_key_text(id: u64) -> Seq<char> {
    seq!['i', 'k', ':'] + decimal(id as nat)
}

/// The text of the key that leads from `parent` and `name` to a child:
/// `ipk:`, the parent's identifier in decimal, a colon, and the name.
pub open spec fn child_key_text(parent: u64, name: Seq<char>) -> Seq<char> {
    seq!['i', 'p', 'k', ':'] + decimal(parent as nat) + seq![':'] + name
}

/// The text of the key of the identifier counter.
pub open spec fn counter_key_text() -> Seq<char> {
    seq!['n', 'e', 'x', 't', '_', 'i', 'd']
}

/// The store key of the item `id`.
pub open spec fn item_key(id: u64) -> Seq<u8> {
    encode_utf8(item_key_text(id))
}

/// The store key that leads from `parent` and `name` to a child.
pub open spec fn child_key(parent: u64, name: Seq<char>) -> Seq<u8> {
    encode_utf8(child_key_text(parent, name))
}

/// The store key of the identifier counter.
pub open spec fn counter_key() -> Seq<u8> {
    encode_utf8(counter_key_text())
}

/// Texts with the same UTF-8 encoding are the same text.
pub proof fn lemma_encoding_injective(a: Seq<char>, b: Seq<char>)
    requires
        encode_utf8(a) == encode_utf8(b),
    ensures
        a == b,
{
    encode_utf8_decode_utf8(a);
    encode_utf8_decode_utf8(b);
}

/// Different identifiers have different item keys.
pub proof fn lemma_item_key_injective(a: u64, b: u64)
    requires
        item_key(a) == item_key(b),
    ensures
        a == b,
{
    lemma_encoding_injective(item_key_text(a), item_key_text(b));
    let da = decimal(a as nat);
    let db = decimal(b as nat);
    assert(da =~= item_key_text(a).subrange(3, item_key_text(a).len() as int));
    assert(db =~= item_key_text(b).subrange(3, item_key_text(b).len() as int));
    lemma_decimal_injective(a as nat, b as nat);
}

/// A parent key determines both the parent and the name.
pub proof fn lemma_child_key_injective(
    parent_a: u64,
    name_a: Seq<char>,
    parent_b: u64,
    name_b: Seq<char>,
)
    requires
        child_key(parent_a, name_a) == child_key(parent_b, name_b),
    ensures
        parent_a == parent_b,
        name_a == name_b,
{
    lemma_encoding_injective(child_key_text(parent_a, name_a), child_key_text(parent_b, name_b));
    let digits_a = decimal(parent_a as nat);
    let digits_b = decimal(parent_b as nat);
    lemma_decimal(parent_a as nat);
    lemma_decimal(parent_b as nat);
    let text_a = child_key_text(parent_a, name_a);
    let text_b = child_key_text(parent_b, name_b);
    let len_a = digits_a.len() as int;
    let len_b = digits_b.len() as int;
    assert(text_a.len() == 4 + len_a + 1 + name_a.len());
    assert(text_b.len() == 4 + len_b + 1 + name_b.len());
    assert(text_a[4 + len_a] == ':');
    assert(text_b[4 + len_b] == ':');
    assert forall|i: int| 0 <= i < len_a implies text_a[4 + i] == digits_a[i] by {}
    assert forall|i: int| 0 <= i < len_b implies text_b[4 + i] == digits_b[i] by {}
    if len_a < len_b {
        assert(text_b[4 + len_a] == digits_b[len_a]);
        assert(is_digit(digits_b[len_a]));
        assert(false);
    }
    if len_b < len_a {
        assert(text_a[4 + len_b] == digits_a[len_b]);
        assert(is_digit(digits_a[len_b]));
        assert(false);
    }
    assert(digits_a =~= digits_b) by {
        assert forall|i: int| 0 <= i < len_a implies digits_a[i] == digits_b[i] by {
            assert(text_a[4 + i] == digits_a[i]);
            assert(text_b[4 + i] == digits_b[i]);
        }
    }
    lemma_decimal_injective(parent_a as nat, parent_b as nat);
    assert(name_a =~= name_b) by {
        assert(name_a.len() == name_b.len());
        assert forall|i: int| 0 <= i < name_a.len() implies name_a[i] == name_b[i] by {
            assert(text_a[4 + len_a + 1 + i] == name_a[i]);
            assert(text_b[4 + len_b + 1 + i] == name_b[i]);
        }
    }
}

/// The key shapes never collide: no item key is a parent key, and neither
/// is the counter key.
pub proof fn lemma_key_shapes_disjoint(id: u64, parent: u64, name: Seq<char>)
    ensures
        item_key(id) != child_key(parent, name),
        item_key(id) != counter_key(),
        child_key(parent, name) != counter_key(),
{
    let item = item_key_text(id);
    let child = child_key_text(parent, name);
    let counter = counter_key_text();
    lemma_decimal(id as nat);
    lemma_decimal(parent as nat);
    assert(item[1] == 'k');
    assert(child[1] == 'p');
    assert(counter[1] == 'e');
    if item_key(id) == child_key(parent, name) {
        lemma_encoding_injective(item, child);
    }
    if item_key(id) == counter_key() {
        lemma_encoding_injective(item, counter);
    }
    if child_key(parent, name) == counter_key() {
        lemma_encoding_injective(child, counter);
    }
}

/// An identifier written as eight bytes, least significant first, reads
/// back as itself.
pub proof fn lemma_item_key_round_trip(id: u64)
    ensures
        spec_u64_to_le_bytes(id).len() == 8,
        spec_u64_from_le_bytes(spec_u64_to_le_bytes(id)) == id,
{
    lemma_auto_spec_u64_to_from_le_bytes();
}

/// Eight bytes read as an identifier write back as themselves.
pub proof fn lemma_item_key_bytes_round_trip(bytes: Seq<u8>)
    requires
        bytes.len() == 8,
    ensures
        spec_u64_to_le_bytes(spec_u64_from_le_bytes(bytes)) == bytes,
{
    lemma_auto_spec_u64_to_from_le_bytes();
}

/// The key of an item: its identifier.
pub struct ItemKey(pub u64);

impl ItemKey {
    /// The identifier as eight bytes, least significant first.
    pub fn format(&self) -> (bytes: Vec<u8>)
        ensures
            bytes@ == spec_u64_to_le_bytes(self.0),
            bytes@.len() == 8,
    {
        u64_to_le_bytes(self.0)
    }

    /// The key whose identifier `value` holds as eight bytes, least
    /// significant first.
    pub fn parse(value: &[u8]) -> (key: Self)
        requires
            value@.len() == 8,
        ensures
            key.0 == spec_u64_from_le_bytes(value@),
    {
        ItemKey(u64_from_le_bytes(value))
    }

    /// The text of the key, as the store holds it.
    pub fn to_string(&self) -> (text: String)
        ensures
            text@ == item_key_text(self.0),
    {
        proof {
            reveal_strlit("ik:");
        }
        let mut text: String = String::from_str("ik:");
        assert(text@ =~= seq!['i', 'k', ':']);
        append_decimal(&mut text, self.0);
        text
    }
}

impl From<u64> for ItemKey {
    fn from(id: u64) -> (key: Self) {
        ItemKey(id)
    }
}

impl vstd::std_specs::convert::FromSpecImpl<u64> for ItemKey {
    open spec fn obeys_from_spec() -> bool {
        true
    }

    open spec fn from_spec(id: u64) -> Self {
        ItemKey(id)
    }
}

/// The key that leads to a child: the parent's identifier and the child's
/// name.
pub struct ItemParentKey(pub u64, pub String);

impl ItemParentKey {
    /// The text of the key, as the store holds it.
    pub fn to_string(&self) -> (text: String)
        ensures
            text@ == child_key_text(self.0, self.1@),
    {
        proof {
            reveal_strlit("ipk:");
            reveal_strlit(":");
        }
        let mut text: String = String::from_str("ipk:");
        assert(text@ =~= seq!['i', 'p', 'k', ':']);
        append_decimal(&mut text, self.0);
        text.append(":");
        assert(":"@ =~= seq![':']);
        text.append(self.1.as_str());
        text
    }
}

/// The text of the counter key.
pub fn counter_key_string() -> (text: String)
    ensures
        text@ == counter_key_text(),
{
    proof {
        reveal_strlit("next_id");
    }
    let text: String = String::from_str("next_id");
    assert(text@ =~= counter_key_text());
    text
}

} // verus!
