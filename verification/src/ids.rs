//! Entity ids as signed 64-bit integers, the form a scripting layer with
//! signed integers passes them in.
use vstd::prelude::*;

use crate::rules::hero_id;
use crate::types::EntityId;

verus! {

/// The signed integer that a scripting layer sends for "no target".
pub const NO_TARGET: i64 = -2;

/// The signed form of an id: the same 64 bits (so `u64::MAX`, the hero of
/// player 1, becomes -1).
pub fn entity_id_to_i64(eid: EntityId) -> (r: i64)
    ensures
        r == eid as i64,
{
    eid as i64
}

/// The id whose signed form is `val`.
pub fn i64_to_entity_id(val: i64) -> (r: EntityId)
    ensures
        r == val as u64,
{
    val as EntityId
}

/// A chosen target in signed form: `NO_TARGET` means no target, and every
/// other value names the id with the same 64 bits (so -1 names the hero of
/// player 1).
pub fn target_from_i64(val: i64) -> (r: Option<EntityId>)
    ensures
        val == NO_TARGET ==> r is None,
        val != NO_TARGET ==> r == Some(val as u64),
{
    if val == NO_TARGET {
        None
    } else {
        Some(val as EntityId)
    }
}

/// Converting an id to its signed form and back gives the id again, and
/// the other way round; the heroes are 0 and -1 in signed form, and the
/// "no target" value is neither of them.
pub proof fn law_signed_ids_round_trip(eid: EntityId, val: i64)
    ensures
        (eid as i64) as u64 == eid,
        (val as u64) as i64 == val,
        hero_id(0) as i64 == 0,
        hero_id(1) as i64 == -1,
        NO_TARGET != hero_id(0) as i64,
        NO_TARGET != hero_id(1) as i64,
{
    assert((eid as i64) as u64 == eid) by (bit_vector);
    assert((val as u64) as i64 == val) by (bit_vector);
    assert(0xffff_ffff_ffff_ffffu64 as i64 == -1) by (bit_vector);
}

} // verus!
