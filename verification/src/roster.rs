//! A bounded access list of player ids: who a lock remembers, who a
//! hearth's crew is. Membership is the only question it answers; a full
//! list refuses a newcomer and never evicts anyone to make room.
use vstd::prelude::*;

verus! {

/// What [`Roster::add`] did.
#[derive(Clone, Copy, Debug, PartialEq, Eq, Structural)]
pub enum Added {
    /// The id was not a member and now is, at the end of the list.
    New,
    /// The id was already a member; nothing moved.
    Already,
    /// The id was not a member and the list is full; nothing moved.
    Full,
}

/// At most `CAP` distinct ids, in the order they joined.
#[derive(Debug)]
pub struct Roster<const CAP: usize> {
    members: Vec<u32>,
}

impl<const CAP: usize> View for Roster<CAP> {
    type V = Seq<u32>;

    closed spec fn view(&self) -> Seq<u32> {
        self.members@
    }
}

impl<const CAP: usize> Roster<CAP> {
    #[verifier::type_invariant]
    spec fn inv(self) -> bool {
        &&& self.members@.len() <= CAP
        &&& self.members@.no_duplicates()
    }

    /// The empty list.
    pub fn new() -> (r: Self)
        ensures
            r@ == Seq::<u32>::empty(),
    {
        Roster { members: Vec::new() }
    }

    /// The list holding `id` alone.
    pub fn of(id: u32) -> (r: Self)
        requires
            CAP >= 1,
        ensures
            r@ == seq![id],
    {
        let mut members = Vec::new();
        members.push(id);
        Roster { members }
    }

    /// Number of members.
    pub fn len(&self) -> (n: usize)
        ensures
            n == self@.len(),
            n <= CAP,
    {
        proof {
            use_type_invariant(self);
        }
        self.members.len()
    }

    pub fn is_empty(&self) -> (b: bool)
        ensures
            b == (self@.len() == 0),
    {
        self.members.len() == 0
    }

    /// The members, in joining order.
    pub fn members(&self) -> (s: &[u32])
        ensures
            s@ == self@,
    {
        self.members.as_slice()
    }

    /// Whether `id` is a member.
    pub fn contains(&self, id: u32) -> (b: bool)
        ensures
            b == self@.contains(id),
    {
        let mut i: usize = 0;
        while i < self.members.len()
            invariant
                i <= self.members@.len(),
                forall|k: int| 0 <= k < i ==> self.members@[k] != id,
            decreases self.members@.len() - i,
        {
            if self.members[i] == id {
                return true;
            }
            i += 1;
        }
        false
    }

    /// Remember `id`: appended if new and there is room; a member stays
    /// where it is; a full list refuses.
    pub fn add(&mut self, id: u32) -> (r: Added)
        ensures
            old(self)@.contains(id) ==> r == Added::Already && final(self)@ == old(self)@,
            !old(self)@.contains(id) && old(self)@.len() >= CAP ==> r == Added::Full
                && final(self)@ == old(self)@,
            !old(self)@.contains(id) && old(self)@.len() < CAP ==> r == Added::New
                && final(self)@ == old(self)@.push(id),
    {
        proof {
            use_type_invariant(&*self);
        }
        if self.contains(id) {
            return Added::Already;
        }
        if self.members.len() >= CAP {
            return Added::Full;
        }
        let mut m: Vec<u32> = Vec::new();
        std::mem::swap(&mut m, &mut self.members);
        let ghost before = m@;
        m.push(id);
        proof {
            assert forall|a: int, b: int| 0 <= a < b < m@.len() implies m@[a] != m@[b] by {
                if b == before.len() {
                    assert(before[a] == m@[a]);
                }
            }
        }
        self.members = m;
        Added::New
    }

    /// Forget `id`. True when it was a member; the others keep their order.
    pub fn remove(&mut self, id: u32) -> (removed: bool)
        ensures
            removed == old(self)@.contains(id),
            !removed ==> final(self)@ == old(self)@,
            removed ==> final(self)@ == old(self)@.remove(old(self)@.index_of(id)),
            !final(self)@.contains(id),
    {
        proof {
            use_type_invariant(&*self);
        }
        let mut i: usize = 0;
        while i < self.members.len()
            invariant
                i <= self.members@.len(),
                forall|k: int| 0 <= k < i ==> self.members@[k] != id,
                self@ == old(self)@,
                self.members@.no_duplicates(),
                self.members@.len() <= CAP,
            decreases self.members@.len() - i,
        {
            if self.members[i] == id {
                let mut m: Vec<u32> = Vec::new();
                std::mem::swap(&mut m, &mut self.members);
                let ghost before = m@;
                m.remove(i);
                proof {
                    assert forall|a: int, b: int| 0 <= a < b < m@.len() implies m@[a] != m@[b] by {
                        let a0 = if a < i { a } else { a + 1 };
                        let b0 = if b < i { b } else { b + 1 };
                        assert(m@[a] == before[a0]);
                        assert(m@[b] == before[b0]);
                    }
                    assert forall|k: int| 0 <= k < m@.len() implies m@[k] != id by {
                        let k0 = if k < i { k } else { k + 1 };
                        assert(m@[k] == before[k0]);
                        if k0 != i as int {
                            assert(before[k0] != before[i as int]);
                        }
                    }
                    assert(before.remove(i as int) =~= m@);
                    let k = before.index_of(id);
                    assert(before[i as int] == id);
                    assert(k == i as int) by {
                        assert(0 <= k < before.len() && before[k] == id);
                        if k != i as int {
                            assert(before[k] != before[i as int]);
                        }
                    }
                }
                self.members = m;
                return true;
            }
            i += 1;
        }
        false
    }

    /// Forget everyone and remember `keep` alone.
    pub fn reset_to(&mut self, keep: u32)
        requires
            CAP >= 1,
        ensures
            final(self)@ == seq![keep],
    {
        let mut members = Vec::new();
        members.push(keep);
        self.members = members;
    }

    /// Forget everyone.
    pub fn clear(&mut self)
        ensures
            final(self)@ == Seq::<u32>::empty(),
    {
        self.members = Vec::new();
    }
}

} // verus!
