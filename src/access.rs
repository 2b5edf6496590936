use vstd::prelude::*;

use crate::identity::IdentityKey;

verus! {

broadcast use IdentityKey::lemma_view_len;

/// The set of identities allowed to perform privileged operations besides
/// the admin. Each identity is held once.
pub struct Allowlist {
    members: Vec<IdentityKey>,
}

impl View for Allowlist {
    type V = Set<Seq<u8>>;

    closed spec fn view(&self) -> Set<Seq<u8>> {
        Set::new(|k: Seq<u8>| exists|i: int| 0 <= i < self.members@.len() && #[trigger] self.members@[i]@ == k)
    }
}

impl Allowlist {
    pub closed spec fn wf(&self) -> bool {
        forall|i: int, j: int|
            0 <= i < j < self.members@.len() ==> #[trigger] self.members@[i]@ != #[trigger] self.members@[j]@
    }

    pub fn new() -> (r: Allowlist)
        ensures
            r.wf(),
            r@ == Set::<Seq<u8>>::empty(),
    {
        let r = Allowlist { members: Vec::new() };
        assert(r@ =~= Set::<Seq<u8>>::empty());
        r
    }

    /// The position of `k` among the members, if it is one.
    fn position(&self, k: &IdentityKey) -> (r: Option<usize>)
        ensures
            match r {
                Some(i) => i < self.members@.len() && self.members@[i as int]@ == k@,
                None => !self@.contains(k@),
            },
    {
        let mut i: usize = 0;
        while i < self.members.len()
            invariant
                i <= self.members@.len(),
                forall|j: int| 0 <= j < i ==> self.members@[j]@ != k@,
            decreases self.members.len() - i,
        {
            if self.members[i].same_as(k) {
                return Some(i);
            }
            i = i + 1;
        }
        None
    }

    /// Whether `k` is a member.
    pub fn contains(&self, k: &IdentityKey) -> (r: bool)
        ensures
            r == self@.contains(k@),
    {
        match self.position(k) {
            Some(i) => {
                assert(self@.contains(k@)) by {
                    assert(self.members@[i as int]@ == k@);
                }
                true
            },
            None => false,
        }
    }

    /// Adds `k`; nothing changes if it is already a member.
    pub fn insert(&mut self, k: IdentityKey)
        requires
            old(self).wf(),
        ensures
            final(self).wf(),
            final(self)@ == old(self)@.insert(k@),
    {
        if self.position(&k).is_none() {
            self.members.push(k);
            assert forall|i: int, j: int|
                0 <= i < j < self.members@.len() implies #[trigger] self.members@[i]@
                != #[trigger] self.members@[j]@ by {
                if j == self.members@.len() - 1 {
                    assert(old(self)@.contains(self.members@[i]@)) by {
                        assert(old(self).members@[i] == self.members@[i]);
                    }
                }
            }
            assert forall|x: Seq<u8>| #[trigger] self@.contains(x) == old(self)@.insert(k@).contains(x) by {
                if old(self)@.contains(x) {
                    let i = choose|i: int| 0 <= i < old(self).members@.len() && #[trigger] old(self).members@[i]@ == x;
                    assert(self.members@[i] == old(self).members@[i]);
                }
                if x == k@ {
                    assert(self.members@[self.members@.len() - 1]@ == x);
                }
                if self@.contains(x) {
                    let i = choose|i: int| 0 <= i < self.members@.len() && #[trigger] self.members@[i]@ == x;
                    if i < old(self).members@.len() {
                        assert(old(self).members@[i] == self.members@[i]);
                    }
                }
            }
            assert(self@ =~= old(self)@.insert(k@));
        } else {
            assert(old(self)@ =~= old(self)@.insert(k@));
        }
    }

    /// Removes `k`; nothing changes if it is not a member.
    pub fn remove(&mut self, k: &IdentityKey)
        requires
            old(self).wf(),
        ensures
            final(self).wf(),
            final(self)@ == old(self)@.remove(k@),
    {
        match self.position(k) {
            None => {
                assert(old(self)@ =~= old(self)@.remove(k@));
            },
            Some(p) => {
                self.members.remove(p);
                let ghost om = old(self).members@;
                assert(self.members@ =~= om.remove(p as int));
                assert forall|i: int, j: int|
                    0 <= i < j < self.members@.len() implies #[trigger] self.members@[i]@
                    != #[trigger] self.members@[j]@ by {
                    let oi = if i < p { i } else { i + 1 };
                    let oj = if j < p { j } else { j + 1 };
                    assert(self.members@[i] == om[oi]);
                    assert(self.members@[j] == om[oj]);
                }
                assert forall|x: Seq<u8>| #[trigger] self@.contains(x) == old(self)@.remove(k@).contains(x) by {
                    if self@.contains(x) {
                        let i = choose|i: int| 0 <= i < self.members@.len() && #[trigger] self.members@[i]@ == x;
                        let oi = if i < p { i } else { i + 1 };
                        assert(self.members@[i] == om[oi]);
                        assert(oi != p);
                        assert(old(self)@.contains(x));
                    }
                    if old(self)@.contains(x) && x != k@ {
                        let oi = choose|i: int| 0 <= i < om.len() && #[trigger] om[i]@ == x;
                        assert(oi != p);
                        let i = if oi < p { oi } else { oi - 1 };
                        assert(self.members@[i] == om[oi]);
                    }
                }
                assert(self@ =~= old(self)@.remove(k@));
            },
        }
    }
}

} // verus!
