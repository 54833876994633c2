//! Code locks — who is allowed through a door.
//!
//! A lock is a separate thing from the door it is bolted to: it lives in a
//! dense side-store keyed by the deployable's grid address, and an address
//! with no lock is a door anyone may work. A lock carries a main code and an
//! optional guest code (four digits each) and two remembered lists.
//! Entering a code does not open the door — it authorizes the hand that
//! entered it, and thereafter the door simply works for them. Full rights
//! come from the main code and from having bolted the lock on; guest rights
//! are the door verb and nothing else. Setting the main code clears both
//! lists, and is the only eviction there is.
//!
//! A wrong code costs [`SHOCK_STEP_HP`] × the consecutive-miss count, the
//! damage ladder forgives itself after [`SHOCK_RESET_TICKS`] of quiet, and
//! [`LOCKOUT_TRIES`] misses shut the keypad for [`LOCKOUT_TICKS`]. The
//! shock never kills: [`shock`] floors at 1 hp.
use vstd::prelude::*;

use crate::craft::{count_in, inv_count};
use crate::deploy::{
    ACCESS_OP_ENTER, ACCESS_OP_LOCK, ACCESS_OP_MAX, ACCESS_OP_SET_CODE, ACCESS_OP_SET_GUEST,
    ACCESS_OP_TAKE, ACCESS_OP_UNLOCK,
};
use crate::gather::{added_slot, inv_add_lost, inv_add_spilling, ItemStack};
use crate::limits::{INV_SLOTS, LOCK_AUTH_CAP, LOCK_GUEST_CAP, MAX_LOCKS};
use crate::roster::{Added, Roster};

verus! {

/// The full-rights list's type.
pub type AuthList = Roster<LOCK_AUTH_CAP>;
/// The guest list's type.
pub type GuestList = Roster<LOCK_GUEST_CAP>;

/// No code set — out of the four-digit range, so no entry can match it.
pub const CODE_NONE: u16 = 65535;
/// The highest four-digit code.
pub const CODE_MAX: u16 = 9_999;

/// What a hand may do at a lock. Ordered by rights.
pub const GRANT_NONE: u8 = 0;
/// Entered the guest code: works the door, and nothing else.
pub const GRANT_GUEST: u8 = 1;
/// Bolted it on, or entered the main code: everything.
pub const GRANT_FULL: u8 = 2;

/// Hp a wrong code costs, per consecutive miss.
pub const SHOCK_STEP_HP: u16 = 5;
/// Ticks of no wrong entry that forgive the damage ladder (not the
/// lockout count).
pub const SHOCK_RESET_TICKS: u64 = 300;
/// Wrong entries that shut the keypad.
pub const LOCKOUT_TRIES: u8 = 8;
/// How long the keypad stays shut.
pub const LOCKOUT_TICKS: u64 = 27_000;

/// One code lock, bolted to the deployable at its grid address.
#[derive(Debug)]
pub struct LockRec {
    pub cx: u16,
    pub cz: u16,
    pub level: u8,
    pub loc: u8,
    /// Who bolted it on. Not the access check — `auth` is.
    pub owner: u32,
    /// The main code, or [`CODE_NONE`].
    pub code: u16,
    /// The guest code, or [`CODE_NONE`].
    pub guest_code: u16,
    /// Whether the leaf answers to the lists at all.
    pub locked: bool,
    /// Who the lock remembers at full rights.
    pub auth: AuthList,
    /// Who it remembers as guests.
    pub guests: GuestList,
    /// Consecutive wrong entries.
    pub misses: u8,
    /// Tick of the last wrong entry.
    pub last_miss: u64,
    /// First tick the keypad accepts again; 0 means it never shut.
    pub shut_until: u64,
}

/// A lock as plain values: its fields, with the two lists as sequences.
pub struct LockModel {
    pub cx: u16,
    pub cz: u16,
    pub level: u8,
    pub loc: u8,
    pub owner: u32,
    pub code: u16,
    pub guest_code: u16,
    pub locked: bool,
    pub auth: Seq<u32>,
    pub guests: Seq<u32>,
    pub misses: u8,
    pub last_miss: u64,
    pub shut_until: u64,
}

impl View for LockRec {
    type V = LockModel;

    open spec fn view(&self) -> LockModel {
        LockModel {
            cx: self.cx,
            cz: self.cz,
            level: self.level,
            loc: self.loc,
            owner: self.owner,
            code: self.code,
            guest_code: self.guest_code,
            locked: self.locked,
            auth: self.auth@,
            guests: self.guests@,
            misses: self.misses,
            last_miss: self.last_miss,
            shut_until: self.shut_until,
        }
    }
}

/// What `id` may do at a lock.
pub open spec fn spec_grant(m: LockModel, id: u32) -> u8 {
    if m.auth.contains(id) {
        GRANT_FULL
    } else if m.guests.contains(id) {
        GRANT_GUEST
    } else {
        GRANT_NONE
    }
}

/// Whether a lock lets `id` work the leaf.
pub open spec fn spec_passes(m: LockModel, id: u32) -> bool {
    !m.locked || spec_grant(m, id) != GRANT_NONE
}

/// Whether a lock lets `id` take what it is bolted to — a guest's tier
/// works the leaf and nothing else.
pub open spec fn spec_passes_full(m: LockModel, id: u32) -> bool {
    !m.locked || spec_grant(m, id) == GRANT_FULL
}

/// Whether a lock sits at this address.
pub open spec fn at_address(m: LockModel, cx: u16, cz: u16, level: u8, loc: u8) -> bool {
    m.cx == cx && m.cz == cz && m.level == level && m.loc == loc
}

impl Default for LockRec {
    fn default() -> (l: Self)
        ensures
            l@ == (LockModel {
                cx: 0,
                cz: 0,
                level: 0,
                loc: 0,
                owner: 0,
                code: CODE_NONE,
                guest_code: CODE_NONE,
                locked: false,
                auth: Seq::empty(),
                guests: Seq::empty(),
                misses: 0,
                last_miss: 0,
                shut_until: 0,
            }),
    {
        LockRec {
            cx: 0,
            cz: 0,
            level: 0,
            loc: 0,
            owner: 0,
            code: CODE_NONE,
            guest_code: CODE_NONE,
            locked: false,
            auth: AuthList::new(),
            guests: GuestList::new(),
            misses: 0,
            last_miss: 0,
            shut_until: 0,
        }
    }
}

/// A lock as it comes out of the box: bolted on by `owner`, no code,
/// unlocked, and the owner already remembered.
pub open spec fn fresh_model(cx: u16, cz: u16, level: u8, loc: u8, owner: u32) -> LockModel {
    LockModel {
        cx,
        cz,
        level,
        loc,
        owner,
        code: CODE_NONE,
        guest_code: CODE_NONE,
        locked: false,
        auth: seq![owner],
        guests: Seq::empty(),
        misses: 0,
        last_miss: 0,
        shut_until: 0,
    }
}

impl LockRec {
    /// A lock as it comes out of the box: bolted on by `owner`, no code,
    /// unlocked, and the owner already remembered.
    pub fn fresh(cx: u16, cz: u16, level: u8, loc: u8, owner: u32) -> (l: Self)
        ensures
            l@ == fresh_model(cx, cz, level, loc, owner),
    {
        LockRec {
            cx,
            cz,
            level,
            loc,
            owner,
            code: CODE_NONE,
            guest_code: CODE_NONE,
            locked: false,
            auth: AuthList::of(owner),
            guests: GuestList::new(),
            misses: 0,
            last_miss: 0,
            shut_until: 0,
        }
    }

    /// What `id` may do here — the one predicate open, close and the
    /// keypad all ask.
    pub fn grant(&self, id: u32) -> (g: u8)
        ensures
            g == spec_grant(self@, id),
    {
        if self.auth.contains(id) {
            return GRANT_FULL;
        }
        if self.guests.contains(id) {
            return GRANT_GUEST;
        }
        GRANT_NONE
    }

    /// Whether this lock lets `id` work the leaf: an unlocked lock lets
    /// everyone through.
    pub fn passes(&self, id: u32) -> (b: bool)
        ensures
            b == spec_passes(self@, id),
    {
        !self.locked || self.grant(id) != GRANT_NONE
    }

    /// Whether this lock lets `id` take what it is bolted to: an unlocked
    /// lock lets anyone, a locked one only full rights.
    pub fn passes_full(&self, id: u32) -> (b: bool)
        ensures
            b == spec_passes_full(self@, id),
    {
        !self.locked || self.grant(id) == GRANT_FULL
    }
}

/// The dense lock list, swap-removed.
#[derive(Debug)]
pub struct Locks {
    entries: Vec<LockRec>,
}

/// `s` with element `i` replaced by the last one and the last dropped —
/// what a swap-remove leaves.
pub open spec fn swap_removed<T>(s: Seq<T>, i: int) -> Seq<T> {
    s.update(i, s.last()).drop_last()
}

impl View for Locks {
    type V = Seq<LockModel>;

    closed spec fn view(&self) -> Seq<LockModel> {
        self.entries@.map_values(|l: LockRec| l@)
    }
}

/// The first lock in `s` at this address, if any.
pub open spec fn first_at(s: Seq<LockModel>, cx: u16, cz: u16, level: u8, loc: u8) -> Option<
    int,
> {
    if exists|i: int| 0 <= i < s.len() && at_address(s[i], cx, cz, level, loc) {
        Some(
            choose|i: int|
                0 <= i < s.len() && at_address(s[i], cx, cz, level, loc) && forall|j: int|
                    0 <= j < i ==> !at_address(s[j], cx, cz, level, loc),
        )
    } else {
        None
    }
}

/// Whether the address passes `id`: a bare address passes.
pub open spec fn spec_locks_pass(s: Seq<LockModel>, cx: u16, cz: u16, level: u8, loc: u8, id: u32) -> bool {
    match first_at(s, cx, cz, level, loc) {
        None => true,
        Some(i) => spec_passes(s[i], id),
    }
}

/// Whether the address lets `id` take what stands there: a bare address
/// does.
pub open spec fn spec_locks_pass_full(s: Seq<LockModel>, cx: u16, cz: u16, level: u8, loc: u8, id: u32) -> bool {
    match first_at(s, cx, cz, level, loc) {
        None => true,
        Some(i) => spec_passes_full(s[i], id),
    }
}

impl Locks {
    pub fn new() -> (l: Self)
        ensures
            l@ == Seq::<LockModel>::empty(),
    {
        let l = Locks { entries: Vec::new() };
        assert(l@ =~= Seq::<LockModel>::empty());
        l
    }

    pub fn len(&self) -> (n: usize)
        ensures
            n == self@.len(),
    {
        self.entries.len()
    }

    pub fn is_empty(&self) -> (b: bool)
        ensures
            b == (self@.len() == 0),
    {
        self.entries.len() == 0
    }

    /// The live records, dense from 0.
    pub fn entries(&self) -> (s: &[LockRec])
        ensures
            s@.len() == self@.len(),
            forall|i: int| 0 <= i < s@.len() ==> s@[i]@ == self@[i],
    {
        self.entries.as_slice()
    }

    /// Index of the first lock at this address.
    pub fn find_index(&self, cx: u16, cz: u16, level: u8, loc: u8) -> (r: Option<usize>)
        ensures
            match r {
                None => first_at(self@, cx, cz, level, loc) == None::<int>,
                Some(i) => first_at(self@, cx, cz, level, loc) == Some(i as int) && i < self@.len()
                    && at_address(self@[i as int], cx, cz, level, loc),
            },
    {
        assert(self@.len() == self.entries@.len());
        let mut i: usize = 0;
        while i < self.entries.len()
            invariant
                i <= self.entries@.len(),
                self@.len() == self.entries@.len(),
                forall|j: int| 0 <= j < i ==> !at_address(self@[j], cx, cz, level, loc),
            decreases self.entries@.len() - i,
        {
            let l = &self.entries[i];
            assert(self@[i as int] == l@);
            if l.cx == cx && l.cz == cz && l.level == level && l.loc == loc {
                assert(at_address(self@[i as int], cx, cz, level, loc));
                let ghost w = choose|k: int|
                    0 <= k < self@.len() && at_address(self@[k], cx, cz, level, loc) && forall|j: int|
                        0 <= j < k ==> !at_address(self@[j], cx, cz, level, loc);
                assert(w == i as int) by {
                    if w < i as int {
                    } else if w > i as int {
                    }
                }
                return Some(i);
            }
            i += 1;
        }
        None
    }

    /// The lock at this address, if one is bolted there.
    pub fn find(&self, cx: u16, cz: u16, level: u8, loc: u8) -> (r: Option<&LockRec>)
        ensures
            match r {
                None => first_at(self@, cx, cz, level, loc) == None::<int>,
                Some(l) => exists|i: int|
                    first_at(self@, cx, cz, level, loc) == Some(i) && l@ == self@[i],
            },
    {
        match self.find_index(cx, cz, level, loc) {
            None => None,
            Some(i) => {
                assert(self@[i as int] == self.entries@[i as int]@);
                Some(&self.entries[i])
            },
        }
    }

    /// What the lock at this address lets `id` do to the leaf. A bare
    /// address passes: a door nobody secured is anyone's.
    pub fn passes(&self, cx: u16, cz: u16, level: u8, loc: u8, id: u32) -> (b: bool)
        ensures
            b == spec_locks_pass(self@, cx, cz, level, loc, id),
    {
        match self.find(cx, cz, level, loc) {
            None => true,
            Some(l) => l.passes(id),
        }
    }

    /// Whether the lock at this address lets `id` take what it is bolted
    /// to. A bare address passes.
    pub fn passes_full(&self, cx: u16, cz: u16, level: u8, loc: u8, id: u32) -> (b: bool)
        ensures
            b == spec_locks_pass_full(self@, cx, cz, level, loc, id),
    {
        match self.find(cx, cz, level, loc) {
            None => true,
            Some(l) => l.passes_full(id),
        }
    }

    /// Whether the leaf at this address should draw as locked.
    pub fn is_locked(&self, cx: u16, cz: u16, level: u8, loc: u8) -> (b: bool)
        ensures
            b == match first_at(self@, cx, cz, level, loc) {
                None => false,
                Some(i) => self@[i].locked,
            },
    {
        match self.find(cx, cz, level, loc) {
            None => false,
            Some(l) => l.locked,
        }
    }

    /// Bolt `rec` on. False when the store is full.
    pub fn insert(&mut self, rec: LockRec) -> (ok: bool)
        ensures
            ok == (old(self)@.len() < MAX_LOCKS),
            ok ==> final(self)@ == old(self)@.push(rec@),
            !ok ==> final(self)@ == old(self)@,
    {
        if self.entries.len() >= MAX_LOCKS {
            return false;
        }
        self.entries.push(rec);
        assert(self@ =~= old(self)@.push(rec@));
        true
    }

    /// Swap-remove record `i`.
    pub fn remove_at(&mut self, i: usize)
        requires
            i < old(self)@.len(),
        ensures
            final(self)@ == swap_removed(old(self)@, i as int),
    {
        self.entries.swap_remove(i);
        assert(self@ =~= swap_removed(old(self)@, i as int));
    }

    /// Take the lock off the deployable at this address, if one is there.
    pub fn remove_at_address(&mut self, cx: u16, cz: u16, level: u8, loc: u8) -> (removed: bool)
        ensures
            removed == (first_at(old(self)@, cx, cz, level, loc) != None::<int>),
            match first_at(old(self)@, cx, cz, level, loc) {
                None => final(self)@ == old(self)@,
                Some(i) => final(self)@ == swap_removed(old(self)@, i),
            },
    {
        match self.find_index(cx, cz, level, loc) {
            Some(i) => {
                self.remove_at(i);
                true
            },
            None => false,
        }
    }
}

impl Default for Locks {
    fn default() -> (l: Self)
        ensures
            l@ == Seq::<LockModel>::empty(),
    {
        Locks::new()
    }
}

/// What one lock op did, for the caller to turn into events.
#[derive(Clone, Copy, Debug, PartialEq, Eq, Structural)]
pub enum Outcome {
    /// The op landed; `relock` is the door's locked bit afterwards.
    Done { relock: bool },
    /// The op landed and the lock came off.
    Removed,
    /// A correct code: `grant` is what the sender now holds.
    Authorized { grant: u8 },
    /// A wrong code: `shock` hp is owed; `shut` when this miss shut the keypad.
    Wrong { shock: u16, shut: bool },
    /// The keypad is shut and this entry was not even scored.
    LockedOut,
    /// The sender's rights are not enough for this op.
    Denied,
    /// A remembered list is full — refuse, never evict.
    ListFull,
    /// The op or its code is out of range.
    BadOp,
}

/// An op number past the table, or a code out of the four-digit range on
/// an op that reads one (the guest code may also be cleared with
/// [`CODE_NONE`]).
pub open spec fn op_malformed(op: u8, code: u16) -> bool {
    let needs_code = op == ACCESS_OP_SET_CODE || op == ACCESS_OP_ENTER;
    let code_ok = code <= CODE_MAX || (op == ACCESS_OP_SET_GUEST && code == CODE_NONE);
    op > ACCESS_OP_MAX || ((needs_code || op == ACCESS_OP_SET_GUEST) && !code_ok)
}

/// The lock with its counters set.
pub open spec fn with_counters(m: LockModel, misses: u8, last_miss: u64, shut_until: u64) -> LockModel {
    LockModel { misses, last_miss, shut_until, ..m }
}

/// The lock with its lists set.
pub open spec fn with_lists(m: LockModel, auth: Seq<u32>, guests: Seq<u32>) -> LockModel {
    LockModel { auth, guests, ..m }
}

/// A code entry: refused while the keypad is shut; otherwise a spent
/// shutter resets the streak, a wrong code is scored (the damage ladder
/// restarting after a quiet window, the lockout count never), and a right
/// code remembers the hand at the rights it matched — refusing, never
/// evicting, when that list is full.
pub open spec fn spec_enter(m: LockModel, id: u32, code: u16, tick: u64) -> (LockModel, Outcome) {
    if tick < m.shut_until {
        (m, Outcome::LockedOut)
    } else {
        let misses0: u8 = if m.shut_until != 0 { 0 } else { m.misses };
        let want = if code != CODE_NONE && code == m.code {
            GRANT_FULL
        } else if code != CODE_NONE && code == m.guest_code {
            GRANT_GUEST
        } else {
            GRANT_NONE
        };
        if want == GRANT_NONE {
            let quiet: int = if tick >= m.last_miss { tick - m.last_miss } else { 0 };
            let step: int = if quiet > SHOCK_RESET_TICKS { 1 } else { misses0 + 1 };
            let misses1: int = if misses0 < 255 { misses0 + 1 } else { 255 };
            let shut = misses1 >= LOCKOUT_TRIES;
            let until: int = if !shut {
                0
            } else if tick + LOCKOUT_TICKS <= u64::MAX {
                tick + LOCKOUT_TICKS
            } else {
                u64::MAX as int
            };
            let shock: int = if SHOCK_STEP_HP * step <= u16::MAX {
                SHOCK_STEP_HP * step
            } else {
                u16::MAX as int
            };
            (
                with_counters(m, misses1 as u8, tick, until as u64),
                Outcome::Wrong { shock: shock as u16, shut },
            )
        } else if want == GRANT_FULL {
            if !m.auth.contains(id) && m.auth.len() >= LOCK_AUTH_CAP {
                (with_counters(m, misses0, m.last_miss, 0), Outcome::ListFull)
            } else {
                let auth = if m.auth.contains(id) { m.auth } else { m.auth.push(id) };
                (
                    with_counters(with_lists(m, auth, m.guests), 0, m.last_miss, 0),
                    Outcome::Authorized { grant: GRANT_FULL },
                )
            }
        } else {
            if m.auth.contains(id) || m.guests.contains(id) {
                (with_counters(m, 0, m.last_miss, 0), Outcome::Authorized { grant: GRANT_GUEST })
            } else if m.guests.len() >= LOCK_GUEST_CAP {
                (with_counters(m, misses0, m.last_miss, 0), Outcome::ListFull)
            } else {
                (
                    with_counters(with_lists(m, m.auth, m.guests.push(id)), 0, m.last_miss, 0),
                    Outcome::Authorized { grant: GRANT_GUEST },
                )
            }
        }
    }
}

/// One lock op on one lock. Everything but a code entry is a full-rights
/// op: a guest or a stranger is denied before anything moves.
pub open spec fn spec_apply(m: LockModel, id: u32, op: u8, code: u16, tick: u64) -> (
    LockModel,
    Outcome,
) {
    if op_malformed(op, code) {
        (m, Outcome::BadOp)
    } else if op == ACCESS_OP_ENTER {
        spec_enter(m, id, code, tick)
    } else if spec_grant(m, id) != GRANT_FULL {
        (m, Outcome::Denied)
    } else if op == ACCESS_OP_SET_CODE {
        (
            LockModel {
                code,
                guest_code: CODE_NONE,
                locked: true,
                misses: 0,
                shut_until: 0,
                auth: seq![id],
                guests: Seq::empty(),
                ..m
            },
            Outcome::Done { relock: true },
        )
    } else if op == ACCESS_OP_SET_GUEST {
        (LockModel { guest_code: code, guests: Seq::empty(), ..m }, Outcome::Done { relock: m.locked })
    } else if op == ACCESS_OP_LOCK {
        if m.code == CODE_NONE {
            (m, Outcome::Denied)
        } else {
            (LockModel { locked: true, ..m }, Outcome::Done { relock: true })
        }
    } else if op == ACCESS_OP_UNLOCK {
        (LockModel { locked: false, ..m }, Outcome::Done { relock: false })
    } else if op == ACCESS_OP_TAKE {
        (m, Outcome::Removed)
    } else {
        (m, Outcome::BadOp)
    }
}

/// Setting the code is the eviction: afterwards the setter is the one
/// hand the lock knows, the door is locked, and every other hand is
/// refused at the leaf until a code brings it back.
pub proof fn law_setting_the_code_evicts_everyone_else(m: LockModel, id: u32, code: u16, tick: u64, other: u32)
    requires
        spec_grant(m, id) == GRANT_FULL,
        code <= CODE_MAX,
        other != id,
    ensures
        ({
            let r = spec_apply(m, id, ACCESS_OP_SET_CODE, code, tick);
            &&& r.1 == Outcome::Done { relock: true }
            &&& spec_grant(r.0, id) == GRANT_FULL
            &&& spec_grant(r.0, other) == GRANT_NONE
            &&& !spec_passes(r.0, other)
            &&& r.0.code == code && r.0.guest_code == CODE_NONE
        }),
{
    let r = spec_apply(m, id, ACCESS_OP_SET_CODE, code, tick);
    assert(r.0.auth =~= seq![id]);
    assert(!r.0.auth.contains(other)) by {
        if r.0.auth.contains(other) {
            let k = choose|k: int| 0 <= k < r.0.auth.len() && r.0.auth[k] == other;
            assert(r.0.auth[k] == id);
        }
    }
    assert(r.0.auth.contains(id)) by {
        assert(r.0.auth[0] == id);
    }
}

/// A wrong code never trusts anyone: no list grows, and it costs hp.
pub proof fn law_a_wrong_code_trusts_nobody(m: LockModel, id: u32, code: u16, tick: u64)
    requires
        code <= CODE_MAX,
        code != m.code,
        code != m.guest_code,
        tick >= m.shut_until,
    ensures
        ({
            let r = spec_apply(m, id, ACCESS_OP_ENTER, code, tick);
            &&& r.1 matches Outcome::Wrong { shock, shut } && shock >= SHOCK_STEP_HP
            &&& r.0.auth == m.auth && r.0.guests == m.guests
            &&& r.0.locked == m.locked && r.0.code == m.code
        }),
{
}

/// Every op but a code entry is a full-rights op: a guest or a stranger is
/// denied before anything moves.
pub proof fn law_only_full_rights_manage_the_lock(m: LockModel, id: u32, op: u8, code: u16, tick: u64)
    requires
        op != ACCESS_OP_ENTER,
        spec_grant(m, id) != GRANT_FULL,
    ensures
        spec_apply(m, id, op, code, tick).0 == m,
        spec_apply(m, id, op, code, tick).1 == Outcome::Denied || spec_apply(m, id, op, code, tick).1 == Outcome::BadOp,
{
}

/// A forged op or code is refused, never clamped: nothing about the lock
/// moves.
pub proof fn law_a_forged_op_is_refused(m: LockModel, id: u32, op: u8, code: u16, tick: u64)
    requires
        op_malformed(op, code),
    ensures
        spec_apply(m, id, op, code, tick) == (m, Outcome::BadOp),
{
}

/// A full list refuses a newcomer and never evicts anyone to make room.
pub proof fn law_a_full_list_never_evicts(m: LockModel, id: u32, code: u16, tick: u64)
    ensures
        spec_apply(m, id, ACCESS_OP_ENTER, code, tick).1 == Outcome::ListFull ==> {
            let r = spec_apply(m, id, ACCESS_OP_ENTER, code, tick).0;
            r.auth == m.auth && r.guests == m.guests
        },
{
}

/// While the keypad is shut, a code entry is not even scored: the lock
/// stays exactly as it was, right code or wrong.
pub proof fn law_a_shut_keypad_scores_nothing(m: LockModel, id: u32, code: u16, tick: u64)
    requires
        tick < m.shut_until,
        !op_malformed(ACCESS_OP_ENTER, code),
    ensures
        spec_apply(m, id, ACCESS_OP_ENTER, code, tick) == (m, Outcome::LockedOut),
{
}

/// Apply one lock op to the record at `i`. Pure over the store: the shock,
/// every event, the item and both mirror bits are the caller's.
pub fn apply(locks: &mut Locks, i: usize, id: u32, op: u8, code: u16, tick: u64) -> (out: Outcome)
    requires
        i < old(locks)@.len(),
    ensures
        out == spec_apply(old(locks)@[i as int], id, op, code, tick).1,
        out == Outcome::Removed ==> final(locks)@ == swap_removed(old(locks)@, i as int),
        out != Outcome::Removed ==> final(locks)@ == old(locks)@.update(
            i as int,
            spec_apply(old(locks)@[i as int], id, op, code, tick).0,
        ),
{
    let ghost m = locks@[i as int];
    if op > ACCESS_OP_MAX {
        assert(locks@ =~= old(locks)@.update(i as int, m));
        return Outcome::BadOp;
    }
    let needs_code = op == ACCESS_OP_SET_CODE || op == ACCESS_OP_ENTER;
    let code_ok = code <= CODE_MAX || (op == ACCESS_OP_SET_GUEST && code == CODE_NONE);
    if (needs_code || op == ACCESS_OP_SET_GUEST) && !code_ok {
        assert(locks@ =~= old(locks)@.update(i as int, m));
        return Outcome::BadOp;
    }
    if op == ACCESS_OP_ENTER {
        return enter(locks, i, id, code, tick);
    }
    let grant = locks.entries[i].grant(id);
    assert(locks.entries@[i as int]@ == m);
    if grant != GRANT_FULL {
        assert(locks@ =~= old(locks)@.update(i as int, m));
        return Outcome::Denied;
    }
    if op == ACCESS_OP_SET_CODE {
        locks.entries[i].code = code;
        locks.entries[i].guest_code = CODE_NONE;
        locks.entries[i].locked = true;
        locks.entries[i].misses = 0;
        locks.entries[i].shut_until = 0;
        locks.entries[i].auth.reset_to(id);
        locks.entries[i].guests.clear();
        assert(locks@ =~= old(locks)@.update(
            i as int,
            spec_apply(old(locks)@[i as int], id, op, code, tick).0,
        ));
        Outcome::Done { relock: true }
    } else if op == ACCESS_OP_SET_GUEST {
        locks.entries[i].guest_code = code;
        locks.entries[i].guests.clear();
        let relock = locks.entries[i].locked;
        assert(locks@ =~= old(locks)@.update(
            i as int,
            spec_apply(old(locks)@[i as int], id, op, code, tick).0,
        ));
        Outcome::Done { relock }
    } else if op == ACCESS_OP_LOCK {
        if locks.entries[i].code == CODE_NONE {
            assert(locks@ =~= old(locks)@.update(i as int, m));
            return Outcome::Denied;
        }
        locks.entries[i].locked = true;
        assert(locks@ =~= old(locks)@.update(
            i as int,
            spec_apply(old(locks)@[i as int], id, op, code, tick).0,
        ));
        Outcome::Done { relock: true }
    } else if op == ACCESS_OP_UNLOCK {
        locks.entries[i].locked = false;
        assert(locks@ =~= old(locks)@.update(
            i as int,
            spec_apply(old(locks)@[i as int], id, op, code, tick).0,
        ));
        Outcome::Done { relock: false }
    } else if op == ACCESS_OP_TAKE {
        locks.remove_at(i);
        Outcome::Removed
    } else {
        assert(locks@ =~= old(locks)@.update(i as int, m));
        Outcome::BadOp
    }
}

/// A code entry: the only op with arithmetic in it, and the only one that
/// can hurt the sender.
fn enter(locks: &mut Locks, i: usize, id: u32, code: u16, tick: u64) -> (out: Outcome)
    requires
        i < old(locks)@.len(),
    ensures
        out == spec_enter(old(locks)@[i as int], id, code, tick).1,
        final(locks)@ == old(locks)@.update(
            i as int,
            spec_enter(old(locks)@[i as int], id, code, tick).0,
        ),
{
    let ghost m = locks@[i as int];
    assert(locks.entries@[i as int]@ == m);
    if tick < locks.entries[i].shut_until {
        assert(locks@ =~= old(locks)@.update(i as int, m));
        return Outcome::LockedOut;
    }
    if locks.entries[i].shut_until != 0 {
        locks.entries[i].shut_until = 0;
        locks.entries[i].misses = 0;
    }
    let lcode = locks.entries[i].code;
    let gcode = locks.entries[i].guest_code;
    let want = if code != CODE_NONE && code == lcode {
        GRANT_FULL
    } else if code != CODE_NONE && code == gcode {
        GRANT_GUEST
    } else {
        GRANT_NONE
    };
    let ghost spec = spec_enter(m, id, code, tick);
    if want == GRANT_NONE {
        let last = locks.entries[i].last_miss;
        let misses = locks.entries[i].misses;
        let step: u16 = if tick.saturating_sub(last) > SHOCK_RESET_TICKS {
            1
        } else {
            (misses as u16).saturating_add(1)
        };
        let nm = misses.saturating_add(1);
        locks.entries[i].misses = nm;
        locks.entries[i].last_miss = tick;
        let shut = nm >= LOCKOUT_TRIES;
        if shut {
            locks.entries[i].shut_until = tick.saturating_add(LOCKOUT_TICKS);
        }
        let shock: u16 = if step <= 13107 {
            SHOCK_STEP_HP * step
        } else {
            u16::MAX
        };
        assert(locks@ =~= old(locks)@.update(i as int, spec.0));
        return Outcome::Wrong { shock, shut };
    }
    let ok = if want == GRANT_FULL {
        locks.entries[i].auth.add(id) != Added::Full
    } else if locks.entries[i].grant(id) != GRANT_NONE {
        true
    } else {
        locks.entries[i].guests.add(id) != Added::Full
    };
    if !ok {
        assert(locks@ =~= old(locks)@.update(i as int, spec.0));
        return Outcome::ListFull;
    }
    locks.entries[i].misses = 0;
    assert(locks@ =~= old(locks)@.update(i as int, spec.0));
    Outcome::Authorized { grant: want }
}

/// Take a shock off a body without ever taking the last point. Returns
/// what was taken.
pub fn shock(hp: &mut u16, amount: u16) -> (took: u16)
    ensures
        took == (if amount as int <= sat_sub(*old(hp), 1) { amount as int } else { sat_sub(*old(hp), 1) }),
        *final(hp) == *old(hp) - took,
        *old(hp) >= 1 ==> *final(hp) >= 1,
{
    let floor = hp.saturating_sub(1);
    let took = if amount < floor { amount } else { floor };
    *hp = *hp - took;
    took
}

/// `a - b`, floored at zero.
pub open spec fn sat_sub(a: u16, b: u16) -> int {
    if a >= b { a - b } else { 0 }
}

/// Give the lock item back to a hand that took its lock off. Returns what
/// would not fit — which goes to `spill`, for the caller to drop on the
/// floor, the same posture every other give takes toward a full hand.
pub fn give_back(
    inv: &mut [ItemStack; INV_SLOTS],
    spill: &mut [ItemStack; INV_SLOTS],
    item: u16,
    stack_max: u16,
    cond: u16,
) -> (lost: u16)
    ensures
        lost as int == inv_add_lost(old(inv)@, item, 1, stack_max),
        lost <= 1,
        forall|k: int|
            0 <= k < INV_SLOTS ==> final(inv)@[k] == added_slot(old(inv)@, item, 1, stack_max, cond, k),
        forall|k: int|
            0 <= k < INV_SLOTS ==> final(spill)@[k] == (if lost > 0 {
                added_slot(old(spill)@, item, 1, stack_max, cond, k)
            } else {
                old(spill)@[k]
            }),
{
    let added = inv_add_spilling(inv, spill, item, 1, stack_max, cond);
    1 - added
}

/// Whether a hand holds at least one of `item`.
pub fn holds(inv: &[ItemStack; INV_SLOTS], item: u16) -> (b: bool)
    ensures
        b == (count_in(inv@, item, INV_SLOTS as int) >= 1),
{
    inv_count(inv, item) >= 1
}

} // verus!
