//! The move verb: one item, one slot, one container to another.
//!
//! Validation is a different function from mutation and cannot mutate:
//! [`plan_move`] is handed copies and returns a plan, [`resolve`] turns a
//! plan into the two replacement slots, and neither takes a `&mut`. No move
//! ever does part of what was asked — it moves exactly `count` or nothing,
//! and says why.
use vstd::prelude::*;

use crate::gather::ItemStack;
use crate::limits::{BOX_SLOTS, INV_SLOTS};

verus! {

/// The sender's own inventory.
pub const CONT_SELF: u8 = 0;
/// A backpack on the ground.
pub const CONT_BAG: u8 = 1;
/// A deployed storage box, named by its packed address.
pub const CONT_BOX: u8 = 2;
/// The highest kind the sim understands.
pub const CONT_MAX: u8 = CONT_BOX;

/// Slots addressable in a container of `kind`.
pub fn slots_in(kind: u8) -> (n: usize)
    ensures
        n == (if kind == CONT_BOX { BOX_SLOTS } else { INV_SLOTS }),
{
    if kind == CONT_BOX {
        BOX_SLOTS
    } else {
        INV_SLOTS
    }
}

/// A slot outside the container, a kind past `CONT_MAX`, or a move onto
/// the slot it came from.
pub const REFUSE_M_SLOT: u32 = 1;
/// The source slot holds nothing.
pub const REFUSE_M_EMPTY: u32 = 2;
/// `count` is zero, or more than the source slot holds. Not clamped.
pub const REFUSE_M_COUNT: u32 = 3;
/// The destination cannot take the whole move.
pub const REFUSE_M_NO_ROOM: u32 = 4;
/// The named container is not in the store.
pub const REFUSE_M_NO_CONTAINER: u32 = 5;
/// The container is real and out of arm's reach.
pub const REFUSE_M_REACH: u32 = 6;
/// The item has no stack ladder.
pub const REFUSE_M_UNSTACKABLE: u32 = 7;
pub const REFUSE_M_MAX: u32 = REFUSE_M_UNSTACKABLE;

/// What a validated move will do.
#[derive(Clone, Copy, Debug, PartialEq, Eq, Structural)]
pub enum MovePlan {
    /// `count` of `item` leaves the source slot for the destination.
    Transfer { item: u16, count: u16 },
    /// Two occupied slots holding different items exchange wholesale.
    Swap,
}

/// The decision [`plan_move`] makes, checks ordered from "your address is
/// nonsense" outward to "your arithmetic does not fit".
pub open spec fn spec_plan(cap: u16, src: ItemStack, dst: ItemStack, count: u16) -> Result<
    MovePlan,
    u32,
> {
    if src.count == 0 {
        Err(REFUSE_M_EMPTY)
    } else if count == 0 || count > src.count {
        Err(REFUSE_M_COUNT)
    } else if cap == 0 {
        Err(REFUSE_M_UNSTACKABLE)
    } else if count > cap {
        Err(REFUSE_M_NO_ROOM)
    } else if dst.count == 0 {
        Ok(MovePlan::Transfer { item: src.item, count })
    } else if dst.item == src.item {
        if count as int > (if cap >= dst.count { cap - dst.count } else { 0 }) {
            Err(REFUSE_M_NO_ROOM)
        } else {
            Ok(MovePlan::Transfer { item: src.item, count })
        }
    } else if count != src.count {
        Err(REFUSE_M_NO_ROOM)
    } else {
        Ok(MovePlan::Swap)
    }
}

/// Decide what a move does, or why it does not. `cap` is the stack
/// ceiling of the source item.
pub fn plan_move(cap: u16, src: ItemStack, dst: ItemStack, count: u16) -> (r: Result<MovePlan, u32>)
    ensures
        r == spec_plan(cap, src, dst, count),
{
    if src.count == 0 {
        return Err(REFUSE_M_EMPTY);
    }
    if count == 0 || count > src.count {
        return Err(REFUSE_M_COUNT);
    }
    if cap == 0 {
        return Err(REFUSE_M_UNSTACKABLE);
    }
    if count > cap {
        return Err(REFUSE_M_NO_ROOM);
    }
    if dst.count == 0 {
        return Ok(MovePlan::Transfer { item: src.item, count });
    }
    if dst.item == src.item {
        let room = cap.saturating_sub(dst.count);
        if count > room {
            return Err(REFUSE_M_NO_ROOM);
        }
        return Ok(MovePlan::Transfer { item: src.item, count });
    }
    if count != src.count {
        return Err(REFUSE_M_NO_ROOM);
    }
    Ok(MovePlan::Swap)
}

/// The two slots a plan leaves: `(new_source, new_destination)`.
pub open spec fn spec_resolve(plan: MovePlan, src: ItemStack, dst: ItemStack) -> (
    ItemStack,
    ItemStack,
) {
    match plan {
        MovePlan::Swap => (dst, src),
        MovePlan::Transfer { item, count } => {
            let left = src.count - count;
            (
                if left == 0 {
                    ItemStack { item: 0, count: 0, cond: 0 }
                } else {
                    ItemStack { item: src.item, count: left as u16, cond: src.cond }
                },
                ItemStack { item, count: (dst.count + count) as u16, cond: dst.cond },
            )
        },
    }
}

/// Turn a plan into the two slots that replace the ones it was planned
/// from. Total for every plan [`plan_move`] produced for these slots.
pub fn resolve(plan: MovePlan, src: ItemStack, dst: ItemStack) -> (r: (ItemStack, ItemStack))
    requires
        exists|cap: u16, count: u16| spec_plan(cap, src, dst, count) == Ok::<MovePlan, u32>(plan),
    ensures
        r == spec_resolve(plan, src, dst),
{
    match plan {
        MovePlan::Swap => (dst, src),
        MovePlan::Transfer { item, count } => {
            let left = src.count - count;
            let new_src = if left == 0 {
                ItemStack { item: 0, count: 0, cond: 0 }
            } else {
                ItemStack { item: src.item, count: left, cond: src.cond }
            };
            let new_dst = ItemStack { item, count: dst.count + count, cond: dst.cond };
            (new_src, new_dst)
        },
    }
}

/// Units of `item` the two slots of a move hold between them.
pub open spec fn units_of(item: u16, a: ItemStack, b: ItemStack) -> int {
    (if a.count > 0 && a.item == item { a.count as int } else { 0 }) + (if b.count > 0 && b.item
        == item {
        b.count as int
    } else {
        0
    })
}

/// A move never makes or destroys an item: for every item, the two slots
/// hold as many units after a planned move as they held before, neither
/// ends past the ladder it was checked against, and a refused move
/// leaves both slots exactly as they were (there is nothing to resolve).
pub proof fn law_a_move_conserves_every_item(cap: u16, src: ItemStack, dst: ItemStack, count: u16, item: u16)
    requires
        spec_plan(cap, src, dst, count) is Ok,
    ensures
        ({
            let (s2, d2) = spec_resolve(spec_plan(cap, src, dst, count)->Ok_0, src, dst);
            &&& units_of(item, s2, d2) == units_of(item, src, dst)
            &&& (spec_plan(cap, src, dst, count)->Ok_0 is Transfer ==> d2.count <= cap)
            &&& s2.count == 0 ==> s2 == ItemStack { item: 0, count: 0, cond: 0 }
        }),
{
}

/// A move onto a stack of the same item that has room merges into it:
/// with a non-empty source, a count it holds, an item that stacks and a
/// destination of that item with room for the count, the move is made as a
/// transfer, the destination then holds both counts together and the
/// source what it did not give.
pub proof fn law_a_move_onto_the_same_item_merges(cap: u16, src: ItemStack, dst: ItemStack, count: u16)
    requires
        src.count > 0,
        0 < count <= src.count,
        dst.count > 0,
        dst.item == src.item,
        dst.count + count <= cap,
    ensures
        spec_plan(cap, src, dst, count) == Ok::<MovePlan, u32>(MovePlan::Transfer { item: src.item, count }),
        ({
            let (s2, d2) = spec_resolve(MovePlan::Transfer { item: src.item, count }, src, dst);
            &&& d2.item == src.item
            &&& d2.count == dst.count + count
            &&& d2.cond == dst.cond
            &&& s2.count == src.count - count
        }),
{
}

/// A move into an empty slot is made whole: the destination takes the
/// count of the source's item and the source keeps the rest.
pub proof fn law_a_move_into_an_empty_slot_is_made(cap: u16, src: ItemStack, dst: ItemStack, count: u16)
    requires
        src.count > 0,
        0 < count <= src.count,
        count <= cap,
        dst.count == 0,
    ensures
        spec_plan(cap, src, dst, count) == Ok::<MovePlan, u32>(MovePlan::Transfer { item: src.item, count }),
        ({
            let (s2, d2) = spec_resolve(MovePlan::Transfer { item: src.item, count }, src, dst);
            &&& d2.item == src.item
            &&& d2.count == count
            &&& s2.count == src.count - count
        }),
{
}

/// When a move is made at all: the source holds something, the count is
/// one it holds and one stack's worth at most, and the destination is
/// empty, or holds the same item with room for the whole count, or holds
/// another item and the whole source stack goes (the two swap).
pub proof fn law_when_a_move_is_made(cap: u16, src: ItemStack, dst: ItemStack, count: u16)
    ensures
        spec_plan(cap, src, dst, count) is Ok <==> {
            &&& src.count > 0
            &&& 0 < count <= src.count
            &&& count <= cap
            &&& (dst.count == 0 || (dst.item == src.item && dst.count + count <= cap) || (dst.item != src.item && count
                == src.count))
        },
{
}

/// Only two slots of different items ever swap: a plan that swaps never
/// has an empty destination or the source's own item there.
pub proof fn law_only_different_items_swap(cap: u16, src: ItemStack, dst: ItemStack, count: u16)
    requires
        spec_plan(cap, src, dst, count) == Ok::<MovePlan, u32>(MovePlan::Swap),
    ensures
        dst.count > 0,
        dst.item != src.item,
        count == src.count,
{
}

/// Pack a move's address for the event lane:
/// `from_kind << 24 | from_slot << 16 | to_kind << 8 | to_slot`.
pub fn addr(from_kind: u8, from_slot: u8, to_kind: u8, to_slot: u8) -> (a: u32)
    ensures
        a == from_kind as int * 0x100_0000 + from_slot as int * 0x1_0000 + to_kind as int * 0x100
            + to_slot as int,
{
    let r = (from_kind as u32) * 0x100_0000 + (from_slot as u32) * 0x1_0000 + (to_kind as u32)
        * 0x100 + (to_slot as u32);
    assert(((from_kind as u32) << 24u32) | ((from_slot as u32) << 16u32) | ((to_kind as u32)
        << 8u32) | (to_slot as u32) == r) by (bit_vector)
        requires
            r == (from_kind as u32) * 0x100_0000 + (from_slot as u32) * 0x1_0000 + (to_kind as u32)
                * 0x100 + (to_slot as u32),
            from_kind < 256,
            from_slot < 256,
            to_kind < 256,
            to_slot < 256,
    ;
    ((from_kind as u32) << 24) | ((from_slot as u32) << 16) | ((to_kind as u32) << 8) | (
    to_slot as u32)
}

/// Why a container panel stopped being served.
pub const CLOSE_ASKED: u8 = 0;
pub const CLOSE_GONE: u8 = 1;
pub const CLOSE_REACH: u8 = 2;
pub const CLOSE_MAX: u8 = CLOSE_REACH;

} // verus!
