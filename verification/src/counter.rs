//! The identifier counter.
//!
//! The store holds, under one key, the identifier that was issued last, as
//! eight bytes, least significant first. Identifiers are issued in
//! increasing order, beginning above the root's, and none is issued twice.

use vstd::prelude::*;
use vstd::bytes::{
    lemma_auto_spec_u64_to_from_le_bytes, spec_u64_from_le_bytes, spec_u64_to_le_bytes,
    u64_from_le_bytes, u64_to_le_bytes,
};
use vstd::slice::slice_to_vec;
use crate::error::IndexError;

verus! {

/// The identifier of the root.
pub const ROOT_ID: u64 = 2;

/// The first identifier that is issued.
pub const FIRST_ID: u64 = 3;

/// The identifier that was issued last, read from what the store holds
/// under the counter key: none, if it holds nothing there. Bytes that are
/// not eight, or that denote an identifier that is never issued, are
/// `Corrupt`.
pub open spec fn counter_value(held: Option<Seq<u8>>) -> Result<Option<u64>, IndexError> {
    match held {
        None => Ok(None),
        Some(bytes) => if bytes.len() == 8 && spec_u64_from_le_bytes(bytes) >= FIRST_ID {
            Ok(Some(spec_u64_from_le_bytes(bytes)))
        } else {
            Err(IndexError::Corrupt)
        },
    }
}

/// The identifier that is issued next.
pub open spec fn issued(held: Option<Seq<u8>>) -> Result<u64, IndexError> {
    match counter_value(held) {
        Err(e) => Err(e),
        Ok(None) => Ok(FIRST_ID),
        Ok(Some(last)) => if last == u64::MAX {
            Err(IndexError::Exhausted)
        } else {
            Ok((last + 1) as u64)
        },
    }
}

/// What the store holds under the counter key once the next identifier has
/// been issued. Where none can be issued, it holds what it held.
pub open spec fn advanced(held: Option<Seq<u8>>) -> Option<Seq<u8>> {
    match issued(held) {
        Ok(id) => Some(spec_u64_to_le_bytes(id)),
        Err(_) => held,
    }
}

/// What the store holds under the counter key after `n` identifiers have
/// been asked for.
pub open spec fn advanced_times(held: Option<Seq<u8>>, n: nat) -> Option<Seq<u8>>
    decreases n,
{
    if n == 0 {
        held
    } else {
        advanced(advanced_times(held, (n - 1) as nat))
    }
}

/// An issued identifier is above the root's, and the counter then holds it.
pub proof fn lemma_issued(held: Option<Seq<u8>>)
    requires
        issued(held) is Ok,
    ensures
        issued(held)->Ok_0 >= FIRST_ID,
        counter_value(advanced(held)) == Ok::<Option<u64>, IndexError>(Some(issued(held)->Ok_0)),
        counter_value(held) matches Ok(Some(last)) ==> issued(held)->Ok_0 == last + 1,
{
    lemma_auto_spec_u64_to_from_le_bytes();
}

/// The counter only increases: asking for an identifier never lowers what
/// the counter holds, and never makes a counter that can be read unreadable.
pub proof fn lemma_counter_only_increases(held: Option<Seq<u8>>)
    requires
        counter_value(held) is Ok,
    ensures
        counter_value(advanced(held)) is Ok,
        counter_value(advanced(held))->Ok_0 is Some,
        counter_value(held) matches Ok(Some(last)) ==> counter_value(advanced(held))->Ok_0->Some_0
            >= last,
{
    if issued(held) is Ok {
        lemma_issued(held);
    }
}

/// Identifiers that are issued one after another are strictly increasing:
/// whatever is issued later is larger. As the counter is read from the
/// store each time, this holds across restarts too.
pub proof fn lemma_issued_increasing(held: Option<Seq<u8>>, i: nat, j: nat)
    requires
        i < j,
        issued(advanced_times(held, j)) is Ok,
    ensures
        issued(advanced_times(held, i)) is Ok,
        issued(advanced_times(held, i))->Ok_0 < issued(advanced_times(held, j))->Ok_0,
    decreases j,
{
    lemma_auto_spec_u64_to_from_le_bytes();
    let before = advanced_times(held, (j - 1) as nat);
    assert(advanced_times(held, j) == advanced(before));
    if issued(before) is Ok {
        lemma_issued(before);
    }
    if i < j - 1 {
        lemma_issued_increasing(held, i, (j - 1) as nat);
    }
}

/// Computes what the counter key holds once the next identifier has been
/// issued, from what it holds now.
pub fn advance_counter(held: Option<&[u8]>) -> (next: Option<Vec<u8>>)
    ensures
        match held {
            Some(bytes) => next is Some && advanced(Some(bytes@)) == Some(next->Some_0@),
            None => next is Some && advanced(None) == Some(next->Some_0@),
        },
{
    match held {
        None => Some(u64_to_le_bytes(FIRST_ID)),
        Some(bytes) => {
            if bytes.len() == 8 {
                let last: u64 = u64_from_le_bytes(bytes);
                if last >= FIRST_ID && last < u64::MAX {
                    return Some(u64_to_le_bytes(last + 1));
                }
            }
            Some(slice_to_vec(bytes))
        },
    }
}

/// Reads the identifier that is issued next from what the counter key held
/// before it was advanced.
pub fn issued_from(held: Option<Vec<u8>>) -> (r: Result<u64, IndexError>)
    ensures
        match held {
            Some(bytes) => r == issued(Some(bytes@)),
            None => r == issued(None),
        },
{
    match held {
        None => Ok(FIRST_ID),
        Some(bytes) => {
            if bytes.len() != 8 {
                return Err(IndexError::Corrupt);
            }
            let last: u64 = u64_from_le_bytes(bytes.as_slice());
            if last < FIRST_ID {
                Err(IndexError::Corrupt)
            } else if last == u64::MAX {
                Err(IndexError::Exhausted)
            } else {
                Ok(last + 1)
            }
        },
    }
}

/// Reads the identifier that was issued last from what the counter key
/// holds.
pub fn counter_from(held: Option<Vec<u8>>) -> (r: Result<Option<u64>, IndexError>)
    ensures
        match held {
            Some(bytes) => r == counter_value(Some(bytes@)),
            None => r == counter_value(None),
        },
{
    match held {
        None => Ok(None),
        Some(bytes) => {
            if bytes.len() != 8 {
                return Err(IndexError::Corrupt);
            }
            let last: u64 = u64_from_le_bytes(bytes.as_slice());
            if last < FIRST_ID {
                Err(IndexError::Corrupt)
            } else {
                Ok(Some(last))
            }
        },
    }
}

} // verus!
