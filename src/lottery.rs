use vstd::prelude::*;

use crate::access::Allowlist;
use crate::digest::{sha256, sha256_of};
use crate::draw::{distinct_ids, draw_order, lemma_draw_order_ids, sort_by_draw_key};
use crate::error::LotteryError;
use crate::identity::{zero_key, IdentityKey};
use crate::rate_limit::{rate_limit_step, RateLimiter};
use crate::text::{be_u64, decimal, push_decimal, read_be_u64};

verus! {

broadcast use IdentityKey::lemma_view_len;

/// Denominator of every basis-point share.
pub const BASIS_POINTS: u128 = 10000;

/// The admin's fee, in basis points of the balance.
pub const OWNER_FEE_BP: u128 = 2;

/// Prize shares in basis points: one for each minor winner, one for the
/// grand winner.
#[derive(Debug, Clone, Copy, PartialEq, Eq, Structural)]
pub struct PayoutStructure {
    pub minor: u128,
    pub grand: u128,
}

/// The abstract state of a lottery.
pub struct LotteryModel {
    /// Ticket id and owner of each sold ticket, in ledger order.
    pub tickets: Seq<(u64, IdentityKey)>,
    pub total_tickets: u64,
    pub sold_tickets: u64,
    pub contract_balance: u128,
    pub ticket_price: u128,
    /// Zero while the time-lock is not set.
    pub draw_time: u64,
    /// Zero while no seed is assigned.
    pub random_seed: u64,
    pub payout: PayoutStructure,
    pub admin: Seq<u8>,
    pub last_call: Map<Seq<u8>, u64>,
    pub acl: Set<Seq<u8>>,
}

impl LotteryModel {
    pub open spec fn initialized(self) -> bool {
        self.total_tickets != 0
    }

    pub open spec fn inv(self) -> bool {
        &&& self.sold_tickets == self.tickets.len()
        &&& self.sold_tickets <= self.total_tickets
        &&& distinct_ids(self.tickets)
        &&& self.payout.minor + self.payout.grand <= BASIS_POINTS
        &&& self.initialized() ==> self.ticket_price > 0 && self.admin != zero_key()
        &&& !self.initialized() ==> self.ticket_price == 0 && self.admin == zero_key()
        &&& self.random_seed != 0 ==> self.draw_time != 0
    }
}

/// `bp` basis points of `amount`, rounded down.
pub open spec fn share(amount: u128, bp: u128) -> int {
    amount * bp / (BASIS_POINTS as int)
}

/// The id of the ticket minted at time `now` as the `serial`-th sale: the
/// first eight bytes, big-endian, of the SHA-256 digest of the decimal time
/// followed by the decimal serial.
pub open spec fn ticket_id_of(now: u64, serial: u64) -> u64 {
    be_u64(sha256_of(decimal(now as nat) + decimal(serial as nat)))
}

/// The ids of `k` tickets minted at `now` after `sold` earlier sales.
pub open spec fn new_ids(now: u64, sold: u64, k: nat) -> Seq<u64> {
    Seq::new(k, |j: int| ticket_id_of(now, (sold + j) as u64))
}

/// `ids` repeat no id, and none of them is already in `existing`.
pub open spec fn ids_fresh(existing: Seq<(u64, IdentityKey)>, ids: Seq<u64>) -> bool {
    &&& forall|i: int, j: int| 0 <= i < j < ids.len() ==> ids[i] != ids[j]
    &&& forall|i: int, q: int| 0 <= i < ids.len() && 0 <= q < existing.len() ==> ids[i] != existing[q].0
}

pub open spec fn initialize_step(
    m: LotteryModel,
    total_tickets: u64,
    ticket_price: u128,
    payout: PayoutStructure,
    admin: Seq<u8>,
) -> (LotteryModel, Result<(), LotteryError>) {
    if m.initialized() {
        (m, Err(LotteryError::AlreadyInitialized))
    } else if total_tickets == 0 || ticket_price == 0 || admin == zero_key() {
        (m, Err(LotteryError::InvalidInput))
    } else if payout.minor + payout.grand > BASIS_POINTS {
        (m, Err(LotteryError::InvalidPayoutStructure))
    } else {
        (LotteryModel { total_tickets, ticket_price, payout, admin, ..m }, Ok(()))
    }
}

/// Appends tickets with the given ids for `buyer`, all or none.
pub open spec fn record_step(m: LotteryModel, buyer: IdentityKey, ids: Seq<u64>) -> (
    LotteryModel,
    Result<(), LotteryError>,
) {
    if m.sold_tickets + ids.len() > m.total_tickets {
        (m, Err(LotteryError::OutOfTickets))
    } else if !ids_fresh(m.tickets, ids) {
        (m, Err(LotteryError::DuplicateTicketPurchase))
    } else {
        (
            LotteryModel {
                tickets: m.tickets + ids.map_values(|id: u64| (id, buyer)),
                sold_tickets: (m.sold_tickets + ids.len()) as u64,
                ..m
            },
            Ok(()),
        )
    }
}

/// Mints as many whole tickets as `deposit` pays for, all or none.
pub open spec fn mint_step(m: LotteryModel, buyer: IdentityKey, deposit: u128, now: u64) -> (
    LotteryModel,
    Result<(), LotteryError>,
) {
    if buyer@ == zero_key() {
        (m, Err(LotteryError::InvalidWalletAddress))
    } else if m.ticket_price == 0 || m.sold_tickets + deposit / m.ticket_price > m.total_tickets {
        (m, Err(LotteryError::OutOfTickets))
    } else {
        record_step(m, buyer, new_ids(now, m.sold_tickets, (deposit / m.ticket_price) as nat))
    }
}

/// Credits a deposit of at least the ticket price to the balance.
pub open spec fn credit_step(m: LotteryModel, deposit: u128) -> (LotteryModel, Result<(), LotteryError>) {
    if deposit < m.ticket_price {
        (m, Err(LotteryError::InvalidDeposit))
    } else {
        (LotteryModel { contract_balance: (m.contract_balance + deposit) as u128, ..m }, Ok(()))
    }
}

/// A full purchase: checks, minting, then crediting the whole deposit.
pub open spec fn purchase_step(m: LotteryModel, buyer: IdentityKey, deposit: u128, now: u64) -> (
    LotteryModel,
    Result<(), LotteryError>,
) {
    if deposit < m.ticket_price {
        (m, Err(LotteryError::InvalidDeposit))
    } else if m.sold_tickets >= m.total_tickets {
        (m, Err(LotteryError::OutOfTickets))
    } else if mint_step(m, buyer, deposit, now).1 is Err {
        mint_step(m, buyer, deposit, now)
    } else {
        credit_step(mint_step(m, buyer, deposit, now).0, deposit)
    }
}

pub open spec fn time_lock_step(m: LotteryModel, duration: u64, now: u64) -> (
    LotteryModel,
    Result<(), LotteryError>,
) {
    if m.draw_time != 0 {
        (m, Err(LotteryError::TimeLockAlreadySet))
    } else {
        (LotteryModel { draw_time: (now + duration) as u64, ..m }, Ok(()))
    }
}

pub open spec fn seed_step(m: LotteryModel, now: u64, seed: u64) -> (
    LotteryModel,
    Result<(), LotteryError>,
) {
    if m.draw_time == 0 || now < m.draw_time {
        (m, Err(LotteryError::InvalidDrawTime))
    } else {
        (LotteryModel { random_seed: seed, ..m }, Ok(()))
    }
}

pub open spec fn draw_step(m: LotteryModel) -> (LotteryModel, Result<(), LotteryError>) {
    if m.random_seed == 0 {
        (m, Err(LotteryError::InvalidRandomSeed))
    } else {
        (LotteryModel { tickets: draw_order(m.tickets, m.random_seed), ..m }, Ok(()))
    }
}

/// The number of minor winners: a tenth of the configured supply, or every
/// sold ticket if fewer were sold.
pub open spec fn minor_winner_count(m: LotteryModel) -> nat {
    if m.total_tickets / 10 <= m.tickets.len() {
        (m.total_tickets / 10) as nat
    } else {
        m.tickets.len()
    }
}

/// The minor winners (the first tickets in the current order) and the grand
/// winner (the very first).
pub open spec fn winners_of(m: LotteryModel) -> Result<(Seq<u64>, u64), LotteryError> {
    if m.tickets.len() == 0 {
        Err(LotteryError::NoTicketsSold)
    } else {
        Ok(
            (
                m.tickets.take(minor_winner_count(m) as int).map_values(|t: (u64, IdentityKey)| t.0),
                m.tickets[0].0,
            ),
        )
    }
}

pub open spec fn rate_step(m: LotteryModel, caller: Seq<u8>, now: u64, cooldown: u64) -> (
    LotteryModel,
    Result<(), LotteryError>,
) {
    (
        LotteryModel { last_call: rate_limit_step(m.last_call, caller, now, cooldown).0, ..m },
        rate_limit_step(m.last_call, caller, now, cooldown).1,
    )
}

} // verus!

verus! {

/// `bp` basis points of `amount`, rounded down, computed without an
/// intermediate product that could overflow.
pub fn share_of(amount: u128, bp: u128) -> (r: u128)
    requires
        bp <= BASIS_POINTS,
    ensures
        r == share(amount, bp),
{
    let q = amount / BASIS_POINTS;
    let rem = amount % BASIS_POINTS;
    proof {
        vstd::arithmetic::div_mod::lemma_fundamental_div_mod(amount as int, 10000);
        assert(q * bp <= amount) by (nonlinear_arith)
            requires
                bp <= 10000,
                amount == 10000 * q + rem,
                rem >= 0,
        ;
        assert(rem * bp <= 10000 * 10000) by (nonlinear_arith)
            requires
                bp <= 10000,
                rem < 10000,
        ;
        assert(amount * bp == rem * bp + (q * bp) * 10000) by (nonlinear_arith)
            requires
                amount == 10000 * q + rem,
        ;
        vstd::arithmetic::div_mod::lemma_hoist_over_denominator((rem * bp) as int, (q * bp) as int, 10000);
        assert((rem * bp) / 10000 <= rem * bp);
        assert(q * bp + (rem * bp) / 10000 <= amount * bp / 10000);
        assert(amount * bp / 10000 <= amount) by {
            assert(amount * bp <= amount * 10000) by (nonlinear_arith)
                requires
                    bp <= 10000,
                    amount >= 0,
            ;
            vstd::arithmetic::div_mod::lemma_div_is_ordered((amount * bp) as int, (amount * 10000) as int, 10000);
            vstd::arithmetic::div_mod::lemma_div_multiples_vanish(amount as int, 10000);
        }
    }
    q * bp + (rem * bp) / BASIS_POINTS
}

/// A lottery instance. Every operation is one call on this value; callers
/// serialise them.
pub struct Lottery {
    ticket_data: Vec<(u64, IdentityKey)>,
    total_tickets: u64,
    sold_tickets: u64,
    contract_balance: u128,
    ticket_price: u128,
    draw_time: u64,
    random_seed: u64,
    payout_structure: PayoutStructure,
    admin_address: IdentityKey,
    rate_limit_map: RateLimiter,
    acl: Allowlist,
}

impl View for Lottery {
    type V = LotteryModel;

    closed spec fn view(&self) -> LotteryModel {
        LotteryModel {
            tickets: self.ticket_data@,
            total_tickets: self.total_tickets,
            sold_tickets: self.sold_tickets,
            contract_balance: self.contract_balance,
            ticket_price: self.ticket_price,
            draw_time: self.draw_time,
            random_seed: self.random_seed,
            payout: self.payout_structure,
            admin: self.admin_address@,
            last_call: self.rate_limit_map@,
            acl: self.acl@,
        }
    }
}

impl Lottery {
    pub closed spec fn wf(&self) -> bool {
        &&& self@.inv()
        &&& self.rate_limit_map.wf()
        &&& self.acl.wf()
    }

    /// A well-formed lottery satisfies the model's invariant; in particular
    /// it never holds more tickets than its supply, and its ledger size is
    /// its count of sold tickets.
    pub proof fn lemma_supply_invariant(&self)
        requires
            self.wf(),
        ensures
            self@.inv(),
            self@.sold_tickets <= self@.total_tickets,
            self@.tickets.len() == self@.sold_tickets,
    {
    }

    /// An empty, unconfigured lottery.
    pub fn new() -> (r: Lottery)
        ensures
            r.wf(),
            r@.tickets.len() == 0,
            r@.total_tickets == 0,
            r@.sold_tickets == 0,
            r@.contract_balance == 0,
            r@.ticket_price == 0,
            r@.draw_time == 0,
            r@.random_seed == 0,
            r@.payout == (PayoutStructure { minor: 0, grand: 0 }),
            r@.admin == zero_key(),
            r@.last_call == Map::<Seq<u8>, u64>::empty(),
            r@.acl == Set::<Seq<u8>>::empty(),
    {
        Lottery {
            ticket_data: Vec::new(),
            total_tickets: 0,
            sold_tickets: 0,
            contract_balance: 0,
            ticket_price: 0,
            draw_time: 0,
            random_seed: 0,
            payout_structure: PayoutStructure { minor: 0, grand: 0 },
            admin_address: IdentityKey::zero(),
            rate_limit_map: RateLimiter::new(),
            acl: Allowlist::new(),
        }
    }

    /// Succeeds when `admin_address` is the admin, or while no admin is set.
    pub fn validate_admin(&self, admin_address: IdentityKey) -> (r: Result<(), LotteryError>)
        ensures
            r == (if admin_address@ != self@.admin && self@.admin != zero_key() {
                Err(LotteryError::InvalidAdmin)
            } else {
                Ok(())
            }),
    {
        if !admin_address.same_as(&self.admin_address) && !self.admin_address.is_zero() {
            return Err(LotteryError::InvalidAdmin);
        }
        Ok(())
    }

    /// Sets the supply, price, payout table and admin, once.
    pub fn initialize_lottery(
        &mut self,
        total_tickets: u64,
        ticket_price: u128,
        payout_structure: PayoutStructure,
        admin_address: IdentityKey,
    ) -> (r: Result<(), LotteryError>)
        requires
            old(self).wf(),
        ensures
            final(self).wf(),
            (final(self)@, r) == initialize_step(old(self)@, total_tickets, ticket_price, payout_structure, admin_address@),
    {
        if self.total_tickets != 0 {
            return Err(LotteryError::AlreadyInitialized);
        }
        if total_tickets == 0 || ticket_price == 0 || admin_address.is_zero() {
            return Err(LotteryError::InvalidInput);
        }
        if payout_structure.minor > BASIS_POINTS || payout_structure.grand > BASIS_POINTS
            || payout_structure.minor + payout_structure.grand > BASIS_POINTS {
            return Err(LotteryError::InvalidPayoutStructure);
        }
        self.total_tickets = total_tickets;
        self.ticket_price = ticket_price;
        self.payout_structure = payout_structure;
        self.admin_address = admin_address;
        Ok(())
    }

    /// Fails with `InvalidDeposit` when the deposit does not pay for one ticket.
    pub fn validate_data(&self, user_deposit: u128) -> (r: Result<(), LotteryError>)
        ensures
            r == (if user_deposit < self@.ticket_price {
                Err(LotteryError::InvalidDeposit)
            } else {
                Ok(())
            }),
    {
        if user_deposit < self.ticket_price {
            return Err(LotteryError::InvalidDeposit);
        }
        Ok(())
    }

    /// Fails with `OutOfTickets` when no ticket remains unsold.
    pub fn check_availability(&self) -> (r: Result<(), LotteryError>)
        ensures
            r == (if self@.sold_tickets >= self@.total_tickets {
                Err(LotteryError::OutOfTickets)
            } else {
                Ok(())
            }),
    {
        if self.sold_tickets >= self.total_tickets {
            return Err(LotteryError::OutOfTickets);
        }
        Ok(())
    }

    /// Credits a deposit that pays for at least one ticket to the balance.
    pub fn allocate_tickets_with_u128(&mut self, user_wallet_address: IdentityKey, user_deposit: u128) -> (r:
        Result<(), LotteryError>)
        requires
            old(self).wf(),
            old(self)@.contract_balance + user_deposit <= u128::MAX,
        ensures
            final(self).wf(),
            (final(self)@, r) == credit_step(old(self)@, user_deposit),
    {
        if let Err(e) = self.validate_data(user_deposit) {
            return Err(e);
        }
        self.contract_balance = self.contract_balance + user_deposit;
        Ok(())
    }

    /// The id of the ticket minted at `now` as the `serial`-th sale.
    pub fn generate_unique_ticket_id(now: u64, serial: u64) -> (r: u64)
        ensures
            r == ticket_id_of(now, serial),
    {
        let mut text: Vec<u8> = Vec::new();
        push_decimal(now, &mut text);
        push_decimal(serial, &mut text);
        assert(text@ =~= decimal(now as nat) + decimal(serial as nat));
        let digest = sha256(&text);
        read_be_u64(&digest)
    }

    /// Records tickets with the given ids for `buyer`: all of them, or none
    /// when they exceed the supply or repeat an id.
    pub fn record_tickets(&mut self, buyer: IdentityKey, ids: &Vec<u64>) -> (r: Result<(), LotteryError>)
        requires
            old(self).wf(),
        ensures
            final(self).wf(),
            (final(self)@, r) == record_step(old(self)@, buyer, ids@),
    {
        if (self.sold_tickets as u128) + (ids.len() as u128) > (self.total_tickets as u128) {
            return Err(LotteryError::OutOfTickets);
        }
        let mut i: usize = 0;
        while i < ids.len()
            invariant
                *self == *old(self),
                old(self).wf(),
                old(self)@.sold_tickets + ids@.len() <= old(self)@.total_tickets,
                i <= ids@.len(),
                forall|a: int, b: int| 0 <= a < b < i ==> ids@[a] != ids@[b],
                forall|a: int, q: int| 0 <= a < i && 0 <= q < self.ticket_data@.len() ==> ids@[a] != self.ticket_data@[q].0,
            decreases ids.len() - i,
        {
            let id = ids[i];
            let mut j: usize = 0;
            while j < i
                invariant
                    *self == *old(self),
                    old(self).wf(),
                    old(self)@.sold_tickets + ids@.len() <= old(self)@.total_tickets,
                    i < ids@.len(),
                    j <= i,
                    id == ids@[i as int],
                    forall|a: int| 0 <= a < j ==> ids@[a] != id,
                decreases i - j,
            {
                if ids[j] == id {
                    assert(!ids_fresh(self.ticket_data@, ids@)) by {
                        assert(ids@[j as int] == ids@[i as int]);
                    }
                    return Err(LotteryError::DuplicateTicketPurchase);
                }
                j = j + 1;
            }
            let mut q: usize = 0;
            while q < self.ticket_data.len()
                invariant
                    *self == *old(self),
                    old(self).wf(),
                    old(self)@.sold_tickets + ids@.len() <= old(self)@.total_tickets,
                    i < ids@.len(),
                    q <= self.ticket_data@.len(),
                    id == ids@[i as int],
                    forall|c: int| 0 <= c < q ==> self.ticket_data@[c].0 != id,
                decreases self.ticket_data.len() - q,
            {
                if self.ticket_data[q].0 == id {
                    assert(!ids_fresh(self.ticket_data@, ids@)) by {
                        assert(ids@[i as int] == self.ticket_data@[q as int].0);
                    }
                    return Err(LotteryError::DuplicateTicketPurchase);
                }
                q = q + 1;
            }
            i = i + 1;
        }
        let ghost before = self.ticket_data@;
        let mut k: usize = 0;
        while k < ids.len()
            invariant
                k <= ids@.len(),
                self.ticket_data@ == before + ids@.take(k as int).map_values(|id: u64| (id, buyer)),
                old(self).sold_tickets + ids@.len() <= old(self).total_tickets,
                self@ == (LotteryModel {
                    tickets: self.ticket_data@,
                    sold_tickets: (old(self).sold_tickets + k) as u64,
                    ..old(self)@
                }),
                self.rate_limit_map == old(self).rate_limit_map,
                self.acl == old(self).acl,
            decreases ids.len() - k,
        {
            self.ticket_data.push((ids[k], buyer));
            self.sold_tickets = self.sold_tickets + 1;
            k = k + 1;
            assert(self.ticket_data@ =~= before + ids@.take(k as int).map_values(|id: u64| (id, buyer)));
        }
        assert(ids@.take(ids@.len() as int) =~= ids@);
        proof {
            let t = self.ticket_data@;
            assert forall|a: int, b: int| 0 <= a < b < t.len() implies #[trigger] t[a].0 != #[trigger] t[b].0 by {
                if b >= before.len() && a < before.len() {
                    assert(t[b].0 == ids@[b - before.len()]);
                } else if a >= before.len() {
                    assert(t[a].0 == ids@[a - before.len()]);
                    assert(t[b].0 == ids@[b - before.len()]);
                }
            }
        }
        Ok(())
    }

    /// Mints as many whole tickets as the deposit pays for, all or none. The
    /// balance is not touched.
    pub fn allocate_tickets_with_f64(&mut self, user_wallet_address: IdentityKey, user_deposit: u128, now: u64) -> (r:
        Result<(), LotteryError>)
        requires
            old(self).wf(),
        ensures
            final(self).wf(),
            (final(self)@, r) == mint_step(old(self)@, user_wallet_address, user_deposit, now),
    {
        if user_wallet_address.is_zero() {
            return Err(LotteryError::InvalidWalletAddress);
        }
        if self.ticket_price == 0 {
            return Err(LotteryError::OutOfTickets);
        }
        let num_tickets = user_deposit / self.ticket_price;
        if num_tickets > ((self.total_tickets - self.sold_tickets) as u128) {
            return Err(LotteryError::OutOfTickets);
        }
        let count = num_tickets as u64;
        let mut ids: Vec<u64> = Vec::new();
        let mut j: u64 = 0;
        while j < count
            invariant
                j <= count,
                count == num_tickets,
                self.sold_tickets + count <= self.total_tickets,
                ids@ == new_ids(now, self.sold_tickets, j as nat),
            decreases count - j,
        {
            let id = Self::generate_unique_ticket_id(now, self.sold_tickets + j);
            ids.push(id);
            j = j + 1;
            assert(ids@ =~= new_ids(now, self.sold_tickets, j as nat));
        }
        self.record_tickets(user_wallet_address, &ids)
    }

    /// Buys tickets: the deposit must pay for one ticket, one must remain,
    /// the buyer must be set, and the whole batch must fit the supply with
    /// fresh ids. Then the tickets are minted and the whole deposit is
    /// credited, the part beyond whole tickets included. Nothing changes on
    /// failure.
    pub fn new_ticket(&mut self, user_wallet_address: IdentityKey, user_deposit: u128, now: u64) -> (r: Result<
        (),
        LotteryError,
    >)
        requires
            old(self).wf(),
            old(self)@.contract_balance + user_deposit <= u128::MAX,
        ensures
            final(self).wf(),
            (final(self)@, r) == purchase_step(old(self)@, user_wallet_address, user_deposit, now),
    {
        if let Err(e) = self.validate_data(user_deposit) {
            return Err(e);
        }
        if let Err(e) = self.check_availability() {
            return Err(e);
        }
        if let Err(e) = self.allocate_tickets_with_f64(user_wallet_address, user_deposit, now) {
            return Err(e);
        }
        self.allocate_tickets_with_u128(user_wallet_address, user_deposit)
    }

    /// Sets the draw time to `now + predefined_duration`, once.
    pub fn activate_time_lock(&mut self, predefined_duration: u64, now: u64) -> (r: Result<(), LotteryError>)
        requires
            old(self).wf(),
            now + predefined_duration <= u64::MAX,
        ensures
            final(self).wf(),
            (final(self)@, r) == time_lock_step(old(self)@, predefined_duration, now),
    {
        if self.draw_time != 0 {
            return Err(LotteryError::TimeLockAlreadySet);
        }
        self.draw_time = now + predefined_duration;
        Ok(())
    }

    /// Takes the seed supplied by the randomness oracle, once the draw time
    /// is set and reached.
    pub fn execute_chainlink_vrf(&mut self, now: u64, seed: u64) -> (r: Result<(), LotteryError>)
        requires
            old(self).wf(),
        ensures
            final(self).wf(),
            (final(self)@, r) == seed_step(old(self)@, now, seed),
    {
        if self.draw_time == 0 || now < self.draw_time {
            return Err(LotteryError::InvalidDrawTime);
        }
        self.random_seed = seed;
        Ok(())
    }

    fn sort_tickets(&mut self)
        requires
            old(self).wf(),
        ensures
            final(self).wf(),
            final(self)@ == (LotteryModel {
                tickets: draw_order(old(self)@.tickets, old(self)@.random_seed),
                ..old(self)@
            }),
    {
        let sorted = sort_by_draw_key(&self.ticket_data, self.random_seed);
        proof {
            lemma_draw_order_ids(self.ticket_data@, self.random_seed);
            crate::draw::lemma_draw_order_multiset(self.ticket_data@, self.random_seed);
        }
        self.ticket_data = sorted;
    }

    /// Reorders the tickets by the seed: ascending by the text of the
    /// decimal ticket id followed by the decimal seed.
    pub fn execute_rng(&mut self) -> (r: Result<(), LotteryError>)
        requires
            old(self).wf(),
        ensures
            final(self).wf(),
            (final(self)@, r) == draw_step(old(self)@),
    {
        if self.random_seed == 0 {
            return Err(LotteryError::InvalidRandomSeed);
        }
        self.sort_tickets();
        Ok(())
    }

    /// The first tenth of the supply in ticket order wins minor prizes; the
    /// first ticket wins the grand prize.
    pub fn select_winners(&self) -> (r: Result<(Vec<u64>, u64), LotteryError>)
        requires
            self.wf(),
        ensures
            match r {
                Ok((w, g)) => winners_of(self@) == Ok::<(Seq<u64>, u64), LotteryError>((w@, g)),
                Err(e) => winners_of(self@) == Err::<(Seq<u64>, u64), LotteryError>(e),
            },
    {
        if self.ticket_data.len() == 0 {
            return Err(LotteryError::NoTicketsSold);
        }
        let tenth = self.total_tickets / 10;
        let count: usize = if (tenth as u128) <= (self.ticket_data.len() as u128) {
            tenth as usize
        } else {
            self.ticket_data.len()
        };
        let ghost expect = self@.tickets.take(count as int).map_values(|t: (u64, IdentityKey)| t.0);
        let mut winners: Vec<u64> = Vec::new();
        let mut i: usize = 0;
        while i < count
            invariant
                count <= self.ticket_data@.len(),
                i <= count,
                winners@ == expect.take(i as int),
                expect.len() == count,
                forall|k: int| 0 <= k < count ==> expect[k] == #[trigger] self.ticket_data@[k].0,
            decreases count - i,
        {
            winners.push(self.ticket_data[i].0);
            i = i + 1;
            assert(winners@ =~= expect.take(i as int));
        }
        assert(expect.take(count as int) =~= expect);
        Ok((winners, self.ticket_data[0].0))
    }

    /// The minor and grand prizes: the configured basis points of the balance,
    /// rounded down.
    pub fn calculate_prizes(&self) -> (r: (u128, u128))
        requires
            self.wf(),
        ensures
            r.0 == share(self@.contract_balance, self@.payout.minor),
            r.1 == share(self@.contract_balance, self@.payout.grand),
    {
        let minor_prize = share_of(self.contract_balance, self.payout_structure.minor);
        let grand_prize = share_of(self.contract_balance, self.payout_structure.grand);
        (minor_prize, grand_prize)
    }

    /// The transfers that pay the winners: the minor prize to each minor
    /// winner in order, then the grand prize to the grand winner. Moving the
    /// funds is left to the host ledger; the state does not change.
    pub fn transfer_winnings(&mut self, winners: Vec<u64>, grand_winner: u64) -> (r: Vec<(u64, u128)>)
        requires
            old(self).wf(),
        ensures
            *final(self) == *old(self),
            r@ == winners@.map_values(|w: u64| (w, share(old(self)@.contract_balance, old(self)@.payout.minor) as u128)).push(
                (grand_winner, share(old(self)@.contract_balance, old(self)@.payout.grand) as u128),
            ),
    {
        let (minor_prize, grand_prize) = self.calculate_prizes();
        let mut transfers: Vec<(u64, u128)> = Vec::new();
        let mut i: usize = 0;
        while i < winners.len()
            invariant
                i <= winners@.len(),
                transfers@ == winners@.take(i as int).map_values(|w: u64| (w, minor_prize)),
            decreases winners.len() - i,
        {
            transfers.push((winners[i], minor_prize));
            i = i + 1;
            assert(transfers@ =~= winners@.take(i as int).map_values(|w: u64| (w, minor_prize)));
        }
        assert(winners@.take(winners@.len() as int) =~= winners@);
        transfers.push((grand_winner, grand_prize));
        transfers
    }

    /// Deducts the admin's fee, two basis points of the balance rounded down,
    /// and returns it for payment to the admin.
    pub fn collect_owner_fee(&mut self) -> (r: u128)
        requires
            old(self).wf(),
        ensures
            final(self).wf(),
            r == share(old(self)@.contract_balance, OWNER_FEE_BP),
            final(self)@ == (LotteryModel {
                contract_balance: (old(self)@.contract_balance - r) as u128,
                ..old(self)@
            }),
    {
        let owner_fee = share_of(self.contract_balance, OWNER_FEE_BP);
        proof {
            vstd::arithmetic::div_mod::lemma_div_is_ordered(
                (self.contract_balance * 2) as int,
                (self.contract_balance * 10000) as int,
                10000,
            );
            vstd::arithmetic::div_mod::lemma_div_multiples_vanish(self.contract_balance as int, 10000);
        }
        self.contract_balance = self.contract_balance - owner_fee;
        owner_fee
    }

    /// Always fails, with `error`.
    pub fn error_response(&self, error: LotteryError) -> (r: Result<(), LotteryError>)
        ensures
            r == Err::<(), LotteryError>(error),
    {
        Err(error)
    }

    /// Refuses an action of `caller` at `now` that comes less than `cooldown`
    /// seconds after its last allowed one, and records an allowed one. The
    /// first action of an identity is always allowed. The cooldown is the
    /// caller's policy, which may differ per identity.
    pub fn rate_limit(&mut self, caller: IdentityKey, now: u64, cooldown: u64) -> (r: Result<(), LotteryError>)
        requires
            old(self).wf(),
        ensures
            final(self).wf(),
            (final(self)@, r) == rate_step(old(self)@, caller@, now, cooldown),
    {
        self.rate_limit_map.check_and_update(caller, now, cooldown)
    }

    /// Adds `caller` to the allowlist; adding a member again changes nothing.
    pub fn add_to_acl(&mut self, caller: IdentityKey) -> (r: Result<(), LotteryError>)
        requires
            old(self).wf(),
        ensures
            final(self).wf(),
            r is Ok,
            final(self)@ == (LotteryModel { acl: old(self)@.acl.insert(caller@), ..old(self)@ }),
    {
        self.acl.insert(caller);
        Ok(())
    }

    /// Removes `caller` from the allowlist; removing a non-member changes nothing.
    pub fn remove_from_acl(&mut self, caller: IdentityKey) -> (r: Result<(), LotteryError>)
        requires
            old(self).wf(),
        ensures
            final(self).wf(),
            r is Ok,
            final(self)@ == (LotteryModel { acl: old(self)@.acl.remove(caller@), ..old(self)@ }),
    {
        self.acl.remove(&caller);
        Ok(())
    }

    /// Fails with `AclViolation` unless `caller` is on the allowlist or is the
    /// admin.
    pub fn check_acl(&self, caller: IdentityKey) -> (r: Result<(), LotteryError>)
        ensures
            r == (if self@.acl.contains(caller@) || caller@ == self@.admin {
                Ok(())
            } else {
                Err(LotteryError::AclViolation)
            }),
    {
        if self.acl.contains(&caller) || caller.same_as(&self.admin_address) {
            Ok(())
        } else {
            Err(LotteryError::AclViolation)
        }
    }

    pub fn total_tickets(&self) -> (r: u64)
        ensures
            r == self@.total_tickets,
    {
        self.total_tickets
    }

    pub fn sold_tickets(&self) -> (r: u64)
        ensures
            r == self@.sold_tickets,
    {
        self.sold_tickets
    }

    pub fn contract_balance(&self) -> (r: u128)
        ensures
            r == self@.contract_balance,
    {
        self.contract_balance
    }

    pub fn ticket_price(&self) -> (r: u128)
        ensures
            r == self@.ticket_price,
    {
        self.ticket_price
    }

    pub fn draw_time(&self) -> (r: u64)
        ensures
            r == self@.draw_time,
    {
        self.draw_time
    }

    pub fn random_seed(&self) -> (r: u64)
        ensures
            r == self@.random_seed,
    {
        self.random_seed
    }

    pub fn payout_structure(&self) -> (r: PayoutStructure)
        ensures
            r == self@.payout,
    {
        self.payout_structure
    }

    pub fn admin_address(&self) -> (r: IdentityKey)
        ensures
            r@ == self@.admin,
    {
        self.admin_address
    }

    /// Ticket id and owner of every sold ticket, in the current order.
    pub fn tickets(&self) -> (r: Vec<(u64, IdentityKey)>)
        ensures
            r@ == self@.tickets,
    {
        let mut r: Vec<(u64, IdentityKey)> = Vec::new();
        let mut i: usize = 0;
        while i < self.ticket_data.len()
            invariant
                i <= self.ticket_data@.len(),
                r@ == self.ticket_data@.take(i as int),
            decreases self.ticket_data.len() - i,
        {
            r.push(self.ticket_data[i]);
            i = i + 1;
            assert(r@ =~= self.ticket_data@.take(i as int));
        }
        assert(self.ticket_data@.take(self.ticket_data@.len() as int) =~= self.ticket_data@);
        r
    }

    /// Whether `k` is on the allowlist.
    pub fn is_on_acl(&self, k: IdentityKey) -> (r: bool)
        ensures
            r == self@.acl.contains(k@),
    {
        self.acl.contains(&k)
    }

    /// The time of `k`'s last allowed action, if any.
    pub fn last_call(&self, k: IdentityKey) -> (r: Option<u64>)
        requires
            self.wf(),
        ensures
            r == (if self@.last_call.contains_key(k@) { Some(self@.last_call[k@]) } else { None::<u64> }),
    {
        self.rate_limit_map.last_call(&k)
    }
}

} // verus!
