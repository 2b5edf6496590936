use vstd::prelude::*;

use crate::error::LotteryError;
use crate::identity::IdentityKey;

verus! {

broadcast use IdentityKey::lemma_view_len;

/// The outcome of a rate-limited action by `caller` at time `now` with the
/// given cooldown, over the map of last call times: the first action of an
/// identity is always allowed; a later one only once `cooldown` seconds have
/// passed since the last allowed one. A refused action changes nothing.
pub open spec fn rate_limit_step(last: Map<Seq<u8>, u64>, caller: Seq<u8>, now: u64, cooldown: u64) -> (
    Map<Seq<u8>, u64>,
    Result<(), LotteryError>,
) {
    if last.contains_key(caller) && (now as int) < last[caller] + cooldown {
        (last, Err(LotteryError::RateLimited))
    } else {
        (last.insert(caller, now), Ok(()))
    }
}

/// Per-identity time of the last allowed call.
pub struct RateLimiter {
    entries: Vec<(IdentityKey, u64)>,
    model: Ghost<Map<Seq<u8>, u64>>,
}

impl View for RateLimiter {
    type V = Map<Seq<u8>, u64>;

    closed spec fn view(&self) -> Map<Seq<u8>, u64> {
        self.model@
    }
}

impl RateLimiter {
    pub closed spec fn wf(&self) -> bool {
        &&& forall|i: int, j: int|
            0 <= i < j < self.entries@.len() ==> #[trigger] self.entries@[i].0@ != #[trigger] self.entries@[j].0@
        &&& forall|i: int|
            0 <= i < self.entries@.len() ==> self.model@.contains_key(#[trigger] self.entries@[i].0@)
                && self.model@[self.entries@[i].0@] == self.entries@[i].1
        &&& forall|k: Seq<u8>|
            #[trigger] self.model@.contains_key(k) ==> exists|i: int|
                0 <= i < self.entries@.len() && #[trigger] self.entries@[i].0@ == k
    }

    pub fn new() -> (r: RateLimiter)
        ensures
            r.wf(),
            r@ == Map::<Seq<u8>, u64>::empty(),
    {
        RateLimiter { entries: Vec::new(), model: Ghost(Map::empty()) }
    }

    fn position(&self, k: &IdentityKey) -> (r: Option<usize>)
        requires
            self.wf(),
        ensures
            match r {
                Some(i) => i < self.entries@.len() && self.entries@[i as int].0@ == k@,
                None => !self@.contains_key(k@),
            },
    {
        let mut i: usize = 0;
        while i < self.entries.len()
            invariant
                i <= self.entries@.len(),
                forall|j: int| 0 <= j < i ==> self.entries@[j].0@ != k@,
            decreases self.entries.len() - i,
        {
            if self.entries[i].0.same_as(k) {
                return Some(i);
            }
            i = i + 1;
        }
        None
    }

    /// The time of `k`'s last allowed call, if it made one.
    pub fn last_call(&self, k: &IdentityKey) -> (r: Option<u64>)
        requires
            self.wf(),
        ensures
            r == (if self@.contains_key(k@) { Some(self@[k@]) } else { None::<u64> }),
    {
        match self.position(k) {
            Some(i) => Some(self.entries[i].1),
            None => None,
        }
    }

    /// Allows or refuses an action of `caller` at `now`, recording it when allowed.
    pub fn check_and_update(&mut self, caller: IdentityKey, now: u64, cooldown: u64) -> (r: Result<
        (),
        LotteryError,
    >)
        requires
            old(self).wf(),
        ensures
            final(self).wf(),
            (final(self)@, r) == rate_limit_step(old(self)@, caller@, now, cooldown),
    {
        match self.position(&caller) {
            Some(i) => {
                let last = self.entries[i].1;
                if now < last || now - last < cooldown {
                    return Err(LotteryError::RateLimited);
                }
                self.entries.set(i, (caller, now));
                self.model = Ghost(self.model@.insert(caller@, now));
                assert forall|i2: int, j: int|
                    0 <= i2 < j < self.entries@.len() implies #[trigger] self.entries@[i2].0@
                    != #[trigger] self.entries@[j].0@ by {
                    assert(old(self).entries@[i2].0@ != old(self).entries@[j].0@);
                }
                assert forall|k: Seq<u8>| #[trigger] self.model@.contains_key(k) implies exists|j: int|
                    0 <= j < self.entries@.len() && #[trigger] self.entries@[j].0@ == k by {
                    if k == caller@ {
                        assert(self.entries@[i as int].0@ == k);
                    } else {
                        let j = choose|j: int| 0 <= j < old(self).entries@.len() && #[trigger] old(self).entries@[j].0@ == k;
                        assert(self.entries@[j].0@ == k);
                    }
                }
                Ok(())
            },
            None => {
                self.entries.push((caller, now));
                self.model = Ghost(self.model@.insert(caller@, now));
                assert forall|i2: int, j: int|
                    0 <= i2 < j < self.entries@.len() implies #[trigger] self.entries@[i2].0@
                    != #[trigger] self.entries@[j].0@ by {
                    if j == self.entries@.len() - 1 {
                        assert(old(self).model@.contains_key(old(self).entries@[i2].0@));
                    } else {
                        assert(old(self).entries@[i2].0@ != old(self).entries@[j].0@);
                    }
                }
                assert forall|k: Seq<u8>| #[trigger] self.model@.contains_key(k) implies exists|j: int|
                    0 <= j < self.entries@.len() && #[trigger] self.entries@[j].0@ == k by {
                    if k == caller@ {
                        assert(self.entries@[self.entries@.len() - 1].0@ == k);
                    } else {
                        let j = choose|j: int| 0 <= j < old(self).entries@.len() && #[trigger] old(self).entries@[j].0@ == k;
                        assert(self.entries@[j].0@ == k);
                    }
                }
                Ok(())
            },
        }
    }
}

} // verus!
