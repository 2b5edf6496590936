use vstd::prelude::*;

use crate::draw::{draw_order, has_id, lemma_draw_order_ids, lemma_draw_order_multiset, lemma_draw_order_sorted, lemma_sorted_unique};
use crate::error::LotteryError;
use crate::identity::IdentityKey;
use crate::lottery::{
    draw_step, initialize_step, purchase_step, record_step, rate_step, seed_step, time_lock_step, winners_of,
    LotteryModel, PayoutStructure,
};

verus! {

/// Configuration is written once: after a successful initialisation, any
/// further initialisation fails with `AlreadyInitialized` and leaves the
/// state exactly as the first call left it.
pub proof fn lemma_initialize_write_once(
    m: LotteryModel,
    total_a: u64,
    price_a: u128,
    payout_a: PayoutStructure,
    admin_a: Seq<u8>,
    total_b: u64,
    price_b: u128,
    payout_b: PayoutStructure,
    admin_b: Seq<u8>,
)
    requires
        m.inv(),
        initialize_step(m, total_a, price_a, payout_a, admin_a).1 is Ok,
    ensures
        ({
            let first = initialize_step(m, total_a, price_a, payout_a, admin_a).0;
            initialize_step(first, total_b, price_b, payout_b, admin_b) == (first, Err::<(), LotteryError>(
                LotteryError::AlreadyInitialized,
            ))
        }),
{
}

/// Recording tickets keeps the invariant: never more sold than the supply,
/// one ledger entry per sold ticket, no id twice.
pub proof fn lemma_record_keeps_supply(m: LotteryModel, buyer: IdentityKey, ids: Seq<u64>)
    requires
        m.inv(),
    ensures
        record_step(m, buyer, ids).0.inv(),
{
    let r = record_step(m, buyer, ids).0;
    if record_step(m, buyer, ids).1 is Ok {
        let t = r.tickets;
        let n = m.tickets.len();
        assert forall|a: int, b: int| 0 <= a < b < t.len() implies #[trigger] t[a].0 != #[trigger] t[b].0 by {
            if b >= n && a < n {
                assert(t[b].0 == ids[b - n]);
                assert(t[a] == m.tickets[a]);
            } else if a >= n {
                assert(t[a].0 == ids[a - n]);
                assert(t[b].0 == ids[b - n]);
            } else {
                assert(t[a] == m.tickets[a]);
                assert(t[b] == m.tickets[b]);
            }
        }
    }
}

/// Every purchase, successful or not, keeps the supply invariant; so it
/// holds after any sequence of purchases.
pub proof fn lemma_purchase_keeps_supply(m: LotteryModel, buyer: IdentityKey, deposit: u128, now: u64)
    requires
        m.inv(),
        m.contract_balance + deposit <= u128::MAX,
    ensures
        purchase_step(m, buyer, deposit, now).0.inv(),
{
    if m.ticket_price > 0 && m.sold_tickets + deposit / m.ticket_price <= m.total_tickets {
        lemma_record_keeps_supply(m, buyer, crate::lottery::new_ids(now, m.sold_tickets, (deposit / m.ticket_price) as nat));
    }
}

/// A deposit that pays for more whole tickets than remain is rejected as a
/// whole: the ledger, the sold count and every other part of the state stay
/// as they were.
pub proof fn lemma_purchase_all_or_nothing(m: LotteryModel, buyer: IdentityKey, deposit: u128, now: u64)
    requires
        m.inv(),
        m.ticket_price > 0,
        m.sold_tickets + deposit / m.ticket_price > m.total_tickets,
    ensures
        purchase_step(m, buyer, deposit, now).0 == m,
        purchase_step(m, buyer, deposit, now).1 is Err,
{
}

/// The draw is a function of the ticket ledger and the seed: two states with
/// the same tickets, supply and seed are ordered identically and give the
/// same winners. The order holds exactly the tickets it was given.
pub proof fn lemma_draw_deterministic(m1: LotteryModel, m2: LotteryModel)
    requires
        m1.inv(),
        m2.inv(),
        m1.tickets == m2.tickets,
        m1.total_tickets == m2.total_tickets,
        m1.random_seed == m2.random_seed,
    ensures
        draw_step(m1).1 == draw_step(m2).1,
        draw_step(m1).0.tickets == draw_step(m2).0.tickets,
        winners_of(draw_step(m1).0) == winners_of(draw_step(m2).0),
        draw_step(m1).0.tickets.to_multiset() == m1.tickets.to_multiset(),
        forall|x: u64| has_id(draw_step(m1).0.tickets, x) <==> has_id(m1.tickets, x),
{
    lemma_draw_order_multiset(m1.tickets, m1.random_seed);
    lemma_draw_order_ids(m1.tickets, m1.random_seed);
}

/// The draw depends on the set of sold tickets and the seed alone, not on
/// the order in which the tickets were recorded: two states holding the
/// same tickets, with the same supply and seed, draw the same order and the
/// same winners.
pub proof fn lemma_draw_same_tickets(m1: LotteryModel, m2: LotteryModel)
    requires
        m1.inv(),
        m2.inv(),
        forall|e: (u64, IdentityKey)| m1.tickets.contains(e) <==> m2.tickets.contains(e),
        m1.total_tickets == m2.total_tickets,
        m1.random_seed == m2.random_seed,
    ensures
        draw_step(m1).1 == draw_step(m2).1,
        draw_step(m1).1 is Ok ==> draw_step(m1).0.tickets == draw_step(m2).0.tickets,
        draw_step(m1).1 is Ok ==> winners_of(draw_step(m1).0) == winners_of(draw_step(m2).0),
{
    broadcast use vstd::seq_lib::group_to_multiset_ensures;

    let seed = m1.random_seed;
    let d1 = draw_order(m1.tickets, seed);
    let d2 = draw_order(m2.tickets, seed);
    lemma_draw_order_multiset(m1.tickets, seed);
    lemma_draw_order_multiset(m2.tickets, seed);
    lemma_draw_order_sorted(m1.tickets, seed);
    lemma_draw_order_sorted(m2.tickets, seed);
    assert forall|e: (u64, IdentityKey)| d1.contains(e) <==> d2.contains(e) by {
        assert(d1.contains(e) <==> d1.to_multiset().count(e) > 0);
        assert(d2.contains(e) <==> d2.to_multiset().count(e) > 0);
        assert(m1.tickets.contains(e) <==> m1.tickets.to_multiset().count(e) > 0);
        assert(m2.tickets.contains(e) <==> m2.tickets.to_multiset().count(e) > 0);
    }
    lemma_sorted_unique(d1, d2, seed);
}

/// With a supply of one hundred and at least ten tickets sold, there are
/// exactly ten minor winners, however many tickets were sold.
pub proof fn lemma_minor_winner_count(m: LotteryModel)
    requires
        m.inv(),
        m.total_tickets == 100,
        m.sold_tickets >= 10,
    ensures
        winners_of(m) matches Ok((w, g)) && w.len() == 10,
{
}

/// The time-lock is set once: a second activation fails with
/// `TimeLockAlreadySet` and changes nothing. Before the draw time neither a
/// seed can be assigned nor the draw be run.
pub proof fn lemma_time_lock(m: LotteryModel, duration: u64, now: u64, duration2: u64, now2: u64, seed: u64)
    requires
        m.inv(),
        m.draw_time == 0,
        now + duration <= u64::MAX,
        now + duration > 0,
        now2 < now + duration,
    ensures
        time_lock_step(m, duration, now).1 is Ok,
        ({
            let locked = time_lock_step(m, duration, now).0;
            &&& time_lock_step(locked, duration2, now2) == (locked, Err::<(), LotteryError>(
                LotteryError::TimeLockAlreadySet,
            ))
            &&& seed_step(locked, now2, seed) == (locked, Err::<(), LotteryError>(LotteryError::InvalidDrawTime))
            &&& draw_step(locked) == (locked, Err::<(), LotteryError>(LotteryError::InvalidRandomSeed))
        }),
{
}

/// A caller's first action is allowed; a repeat within the cooldown is
/// refused with `RateLimited` and changes nothing; once the cooldown has
/// passed the next action is allowed again.
pub proof fn lemma_rate_limiting(m: LotteryModel, caller: Seq<u8>, t1: u64, t2: u64, cooldown: u64)
    requires
        !m.last_call.contains_key(caller),
    ensures
        rate_step(m, caller, t1, cooldown).1 is Ok,
        ({
            let after = rate_step(m, caller, t1, cooldown).0;
            &&& (t2 < t1 + cooldown ==> rate_step(after, caller, t2, cooldown) == (after, Err::<(), LotteryError>(
                LotteryError::RateLimited,
            )))
            &&& (t2 >= t1 + cooldown ==> rate_step(after, caller, t2, cooldown).1 is Ok)
        }),
{
}

} // verus!
