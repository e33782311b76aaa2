//! Reading the beneficiary out of a block: the lock script that a cellbase
//! witness names, and the argument bytes of a lock script. Both are encoded
//! in the chain's own serialization, which `ckb_types` parses.

use ckb_types::packed::{CellbaseWitness, Script};
use ckb_types::prelude::Entity;
use vstd::prelude::*;

verus! {

/// The serialized lock script inside a serialized cellbase witness, or `None`
/// where the bytes are no cellbase witness.
pub uninterp spec fn cellbase_lock(witness: Seq<u8>) -> Option<Seq<u8>>;

/// The argument bytes of a serialized lock script, or `None` where the bytes
/// are no script.
pub uninterp spec fn script_args(lock: Seq<u8>) -> Option<Seq<u8>>;

/// The bytes of an optional byte string.
pub open spec fn bytes_of(bytes: Option<Vec<u8>>) -> Option<Seq<u8>> {
    match bytes {
        Some(b) => Some(b@),
        None => None,
    }
}

/// Wraps `CellbaseWitness::from_slice` of `ckb_types`, which checks the bytes
/// against the witness layout, and hands out the bytes of the lock field:
/// a function of the witness bytes alone. The check of the witness holds
/// the lock field to the script layout, which is the very check that
/// `Script::from_slice` makes of those bytes: a lock that was read from a
/// witness is a script.
#[verifier::external_body]
pub(crate) fn parse_cellbase_lock(witness: &Vec<u8>) -> (lock: Option<Vec<u8>>)
    ensures
        bytes_of(lock) == cellbase_lock(witness@),
        lock matches Some(script) ==> script_args(script@) is Some,
{
    match CellbaseWitness::from_slice(witness) {
        Ok(parsed) => Some(parsed.lock().as_slice().to_vec()),
        Err(_) => None,
    }
}

/// Wraps `Script::from_slice` of `ckb_types`, which checks the bytes against
/// the script layout, and hands out the raw data of the args field: a
/// function of the script bytes alone.
#[verifier::external_body]
pub(crate) fn parse_script_args(lock: &Vec<u8>) -> (args: Option<Vec<u8>>)
    ensures
        bytes_of(args) == script_args(lock@),
{
    match Script::from_slice(lock) {
        Ok(parsed) => Some(parsed.args().raw_data().to_vec()),
        Err(_) => None,
    }
}

} // verus!
