use vstd::prelude::*;

use crate::text::{decimal, lex_less, lex_less_bytes, push_decimal};

verus! {

/// The draw's sort key of a ticket: the decimal ticket id followed by the
/// decimal seed, as text.
pub open spec fn draw_key(id: u64, seed: u64) -> Seq<u8> {
    decimal(id as nat) + decimal(seed as nat)
}

/// Whether ticket `a` comes before ticket `b` in the draw under `seed`.
pub open spec fn draw_before(a: u64, b: u64, seed: u64) -> bool {
    lex_less(draw_key(a, seed), draw_key(b, seed))
}

/// `s` with `t` inserted before the first entry whose key is greater.
pub open spec fn insert_by_key<V>(s: Seq<(u64, V)>, t: (u64, V), seed: u64) -> Seq<(u64, V)>
    decreases s.len(),
{
    if s.len() == 0 {
        seq![t]
    } else if draw_before(t.0, s[0].0, seed) {
        seq![t] + s
    } else {
        seq![s[0]] + insert_by_key(s.drop_first(), t, seed)
    }
}

/// The entries of `s` in draw order: a stable sort by `draw_key`.
pub open spec fn draw_order<V>(s: Seq<(u64, V)>, seed: u64) -> Seq<(u64, V)>
    decreases s.len(),
{
    if s.len() == 0 {
        s
    } else {
        insert_by_key(draw_order(s.drop_last(), seed), s.last(), seed)
    }
}

proof fn lemma_insert_at<V>(s: Seq<(u64, V)>, t: (u64, V), seed: u64, p: int)
    requires
        0 <= p <= s.len(),
        forall|q: int| 0 <= q < p ==> !draw_before(t.0, #[trigger] s[q].0, seed),
        p < s.len() ==> draw_before(t.0, s[p].0, seed),
    ensures
        insert_by_key(s, t, seed) == s.insert(p, t),
    decreases s.len(),
{
    if s.len() == 0 {
        assert(s.insert(p, t) =~= seq![t]);
    } else if p == 0 {
        assert(s.insert(p, t) =~= seq![t] + s);
    } else {
        let r = s.drop_first();
        assert forall|q: int| 0 <= q < p - 1 implies !draw_before(t.0, #[trigger] r[q].0, seed) by {
            assert(r[q] == s[q + 1]);
        }
        lemma_insert_at(r, t, seed, p - 1);
        assert(seq![s[0]] + r.insert(p - 1, t) =~= s.insert(p, t));
    }
}

/// Inserting keeps every entry and adds one.
pub proof fn lemma_insert_by_key_multiset<V>(s: Seq<(u64, V)>, t: (u64, V), seed: u64)
    ensures
        insert_by_key(s, t, seed).to_multiset() == s.to_multiset().insert(t),
    decreases s.len(),
{
    broadcast use vstd::seq_lib::group_to_multiset_ensures;

    if s.len() == 0 {
        assert(seq![t] =~= s.push(t));
    } else if draw_before(t.0, s[0].0, seed) {
        vstd::seq_lib::lemma_multiset_commutative(seq![t], s);
        assert(seq![t].to_multiset() =~= Seq::<(u64, V)>::empty().push(t).to_multiset()) by {
            assert(seq![t] =~= Seq::<(u64, V)>::empty().push(t));
        }
        assert(s.to_multiset().insert(t) =~= s.to_multiset().add(seq![t].to_multiset()));
    } else {
        let r = s.drop_first();
        lemma_insert_by_key_multiset(r, t, seed);
        vstd::seq_lib::lemma_multiset_commutative(seq![s[0]], insert_by_key(r, t, seed));
        vstd::seq_lib::lemma_multiset_commutative(seq![s[0]], r);
        assert(s =~= seq![s[0]] + r);
        assert(seq![s[0]].to_multiset() =~= Seq::<(u64, V)>::empty().push(s[0]).to_multiset()) by {
            assert(seq![s[0]] =~= Seq::<(u64, V)>::empty().push(s[0]));
        }
        assert(insert_by_key(s, t, seed).to_multiset() =~= s.to_multiset().insert(t));
    }
}

/// The draw order holds the same entries as the ledger, each as often.
pub proof fn lemma_draw_order_multiset<V>(s: Seq<(u64, V)>, seed: u64)
    ensures
        draw_order(s, seed).to_multiset() == s.to_multiset(),
        draw_order(s, seed).len() == s.len(),
    decreases s.len(),
{
    broadcast use vstd::seq_lib::group_to_multiset_ensures;

    if s.len() > 0 {
        lemma_draw_order_multiset(s.drop_last(), seed);
        lemma_insert_by_key_multiset(draw_order(s.drop_last(), seed), s.last(), seed);
        assert(s =~= s.drop_last().push(s.last()));
        assert(draw_order(s, seed).to_multiset().len() == s.to_multiset().len());
    }
}

/// The draw key of `id` under `seed`, as bytes.
pub fn draw_key_bytes(id: u64, seed: u64) -> (r: Vec<u8>)
    ensures
        r@ == draw_key(id, seed),
{
    let mut r: Vec<u8> = Vec::new();
    push_decimal(id, &mut r);
    push_decimal(seed, &mut r);
    assert(r@ =~= draw_key(id, seed));
    r
}

/// Reorders `entries` into draw order under `seed`.
pub fn sort_by_draw_key<V: Copy>(entries: &Vec<(u64, V)>, seed: u64) -> (r: Vec<(u64, V)>)
    ensures
        r@ == draw_order(entries@, seed),
{
    let mut out: Vec<(u64, V)> = Vec::new();
    let mut i: usize = 0;
    assert(entries@.subrange(0, 0) =~= Seq::<(u64, V)>::empty());
    while i < entries.len()
        invariant
            i <= entries@.len(),
            out@ == draw_order(entries@.subrange(0, i as int), seed),
        decreases entries.len() - i,
    {
        let t = entries[i];
        let key = draw_key_bytes(t.0, seed);
        let mut p: usize = 0;
        let mut found = false;
        while !found && p < out.len()
            invariant
                p <= out@.len(),
                key@ == draw_key(t.0, seed),
                forall|q: int| 0 <= q < p ==> !draw_before(t.0, #[trigger] out@[q].0, seed),
                found ==> p < out@.len() && draw_before(t.0, out@[p as int].0, seed),
            decreases out@.len() - p + (if found { 0int } else { 1int }),
        {
            let other = draw_key_bytes(out[p].0, seed);
            if lex_less_bytes(&key, &other) {
                found = true;
            } else {
                p = p + 1;
            }
        }
        proof {
            lemma_insert_at(out@, t, seed, p as int);
            let pre = entries@.subrange(0, i + 1);
            assert(pre.drop_last() =~= entries@.subrange(0, i as int));
            assert(pre.last() == t);
        }
        out.insert(p, t);
        i = i + 1;
    }
    assert(entries@.subrange(0, entries@.len() as int) =~= entries@);
    out
}

} // verus!

verus! {

/// Whether some entry of `s` carries ticket id `x`.
pub open spec fn has_id<V>(s: Seq<(u64, V)>, x: u64) -> bool {
    exists|i: int| 0 <= i < s.len() && #[trigger] s[i].0 == x
}

/// No ticket id occurs twice in `s`.
pub open spec fn distinct_ids<V>(s: Seq<(u64, V)>) -> bool {
    forall|i: int, j: int| 0 <= i < j < s.len() ==> #[trigger] s[i].0 != #[trigger] s[j].0
}

proof fn lemma_insert_ids<V>(s: Seq<(u64, V)>, t: (u64, V), seed: u64)
    requires
        distinct_ids(s),
        !has_id(s, t.0),
    ensures
        distinct_ids(insert_by_key(s, t, seed)),
        forall|x: u64| has_id(insert_by_key(s, t, seed), x) <==> (has_id(s, x) || x == t.0),
    decreases s.len(),
{
    let r = insert_by_key(s, t, seed);
    if s.len() == 0 {
        assert(r =~= seq![t]);
        assert(has_id(r, t.0)) by { assert(r[0].0 == t.0); }
    } else if draw_before(t.0, s[0].0, seed) {
        assert(r =~= seq![t] + s);
        assert forall|x: u64| has_id(r, x) <==> (has_id(s, x) || x == t.0) by {
            if has_id(r, x) {
                let i = choose|i: int| 0 <= i < r.len() && #[trigger] r[i].0 == x;
                if i > 0 { assert(s[i - 1].0 == x); }
            }
            if has_id(s, x) {
                let i = choose|i: int| 0 <= i < s.len() && #[trigger] s[i].0 == x;
                assert(r[i + 1].0 == x);
            }
            if x == t.0 { assert(r[0].0 == x); }
        }
        assert forall|i: int, j: int| 0 <= i < j < r.len() implies #[trigger] r[i].0 != #[trigger] r[j].0 by {
            if i == 0 {
                assert(s[j - 1].0 == r[j].0);
            } else {
                assert(s[i - 1].0 != s[j - 1].0);
            }
        }
    } else {
        let d = s.drop_first();
        assert forall|x: u64| has_id(d, x) implies has_id(s, x) by {
            let i = choose|i: int| 0 <= i < d.len() && #[trigger] d[i].0 == x;
            assert(s[i + 1].0 == x);
        }
        assert forall|i: int, j: int| 0 <= i < j < d.len() implies #[trigger] d[i].0 != #[trigger] d[j].0 by {
            assert(s[i + 1].0 != s[j + 1].0);
        }
        lemma_insert_ids(d, t, seed);
        let ri = insert_by_key(d, t, seed);
        assert(r =~= seq![s[0]] + ri);
        assert(!has_id(d, s[0].0)) by {
            if has_id(d, s[0].0) {
                let i = choose|i: int| 0 <= i < d.len() && #[trigger] d[i].0 == s[0].0;
                assert(s[i + 1].0 == s[0].0);
            }
        }
        assert(s[0].0 != t.0) by { assert(has_id(s, s[0].0)); }
        assert forall|x: u64| has_id(r, x) <==> (has_id(s, x) || x == t.0) by {
            if has_id(r, x) {
                let i = choose|i: int| 0 <= i < r.len() && #[trigger] r[i].0 == x;
                if i > 0 { assert(ri[i - 1].0 == x); assert(has_id(ri, x)); }
                else { assert(s[0].0 == x); }
                if has_id(d, x) { }
            }
            if has_id(s, x) {
                let i = choose|i: int| 0 <= i < s.len() && #[trigger] s[i].0 == x;
                if i == 0 { assert(r[0].0 == x); }
                else { assert(d[i - 1].0 == x); assert(has_id(d, x)); assert(has_id(ri, x)); let k = choose|k: int| 0 <= k < ri.len() && #[trigger] ri[k].0 == x; assert(r[k + 1].0 == x); }
            }
            if x == t.0 {
                assert(has_id(ri, x));
                let k = choose|k: int| 0 <= k < ri.len() && #[trigger] ri[k].0 == x;
                assert(r[k + 1].0 == x);
            }
        }
        assert forall|i: int, j: int| 0 <= i < j < r.len() implies #[trigger] r[i].0 != #[trigger] r[j].0 by {
            if i == 0 {
                assert(r[j].0 == ri[j - 1].0);
                if r[j].0 == s[0].0 {
                    assert(has_id(ri, s[0].0));
                }
            } else {
                assert(ri[i - 1].0 != ri[j - 1].0);
            }
        }
    }
}

/// The draw order carries the same ticket ids as the ledger, still without repeats.
pub proof fn lemma_draw_order_ids<V>(s: Seq<(u64, V)>, seed: u64)
    requires
        distinct_ids(s),
    ensures
        distinct_ids(draw_order(s, seed)),
        forall|x: u64| has_id(draw_order(s, seed), x) <==> has_id(s, x),
    decreases s.len(),
{
    if s.len() > 0 {
        let d = s.drop_last();
        assert forall|i: int, j: int| 0 <= i < j < d.len() implies #[trigger] d[i].0 != #[trigger] d[j].0 by {
            assert(s[i].0 != s[j].0);
        }
        lemma_draw_order_ids(d, seed);
        assert(!has_id(d, s.last().0)) by {
            if has_id(d, s.last().0) {
                let i = choose|i: int| 0 <= i < d.len() && #[trigger] d[i].0 == s.last().0;
                assert(s[i].0 == s[s.len() - 1].0);
            }
        }
        lemma_insert_ids(draw_order(d, seed), s.last(), seed);
        assert forall|x: u64| has_id(s, x) <==> (has_id(d, x) || x == s.last().0) by {
            if has_id(s, x) {
                let i = choose|i: int| 0 <= i < s.len() && #[trigger] s[i].0 == x;
                if i < s.len() - 1 { assert(d[i].0 == x); }
            }
            if has_id(d, x) {
                let i = choose|i: int| 0 <= i < d.len() && #[trigger] d[i].0 == x;
                assert(s[i].0 == x);
            }
            if x == s.last().0 { assert(s[s.len() - 1].0 == x); }
        }
    }
}

} // verus!

verus! {

/// Ticket ids in `s` strictly ascend in draw order.
pub open spec fn draw_sorted<V>(s: Seq<(u64, V)>, seed: u64) -> bool {
    forall|i: int, j: int| 0 <= i < j < s.len() ==> draw_before(#[trigger] s[i].0, #[trigger] s[j].0, seed)
}

proof fn lemma_draw_before_total(a: u64, b: u64, seed: u64)
    requires
        a != b,
    ensures
        draw_before(a, b, seed) || draw_before(b, a, seed),
{
    crate::text::lemma_lex_total(draw_key(a, seed), draw_key(b, seed));
    if draw_key(a, seed) == draw_key(b, seed) {
        let n = decimal(a as nat).len() as int;
        assert(draw_key(a, seed).len() == draw_key(b, seed).len());
        assert(decimal(b as nat).len() == n);
        assert(decimal(a as nat) =~= draw_key(a, seed).subrange(0, n));
        assert(decimal(b as nat) =~= draw_key(b, seed).subrange(0, n));
        crate::text::lemma_decimal_injective(a as nat, b as nat);
    }
}

proof fn lemma_insert_sorted<V>(s: Seq<(u64, V)>, t: (u64, V), seed: u64)
    requires
        distinct_ids(s),
        !has_id(s, t.0),
        draw_sorted(s, seed),
    ensures
        draw_sorted(insert_by_key(s, t, seed), seed),
    decreases s.len(),
{
    let r = insert_by_key(s, t, seed);
    if s.len() == 0 {
    } else if draw_before(t.0, s[0].0, seed) {
        assert(r =~= seq![t] + s);
        assert forall|i: int, j: int| 0 <= i < j < r.len() implies draw_before(#[trigger] r[i].0, #[trigger] r[j].0, seed) by {
            if i == 0 {
                if j > 1 {
                    assert(draw_before(s[0].0, s[j - 1].0, seed));
                    crate::text::lemma_lex_transitive(draw_key(t.0, seed), draw_key(s[0].0, seed), draw_key(s[j - 1].0, seed));
                }
            } else {
                assert(draw_before(s[i - 1].0, s[j - 1].0, seed));
            }
        }
    } else {
        let d = s.drop_first();
        assert(s[0].0 != t.0) by { assert(has_id(s, s[0].0)); }
        lemma_draw_before_total(t.0, s[0].0, seed);
        assert forall|i: int, j: int| 0 <= i < j < d.len() implies #[trigger] d[i].0 != #[trigger] d[j].0 by {
            assert(s[i + 1].0 != s[j + 1].0);
        }
        assert forall|i: int, j: int| 0 <= i < j < d.len() implies draw_before(#[trigger] d[i].0, #[trigger] d[j].0, seed) by {
            assert(draw_before(s[i + 1].0, s[j + 1].0, seed));
        }
        assert(!has_id(d, t.0)) by {
            if has_id(d, t.0) {
                let i = choose|i: int| 0 <= i < d.len() && #[trigger] d[i].0 == t.0;
                assert(s[i + 1].0 == t.0);
            }
        }
        lemma_insert_sorted(d, t, seed);
        lemma_insert_ids(d, t, seed);
        let ri = insert_by_key(d, t, seed);
        assert(r =~= seq![s[0]] + ri);
        assert forall|i: int, j: int| 0 <= i < j < r.len() implies draw_before(#[trigger] r[i].0, #[trigger] r[j].0, seed) by {
            if i == 0 {
                let x = ri[j - 1].0;
                assert(has_id(ri, x));
                if has_id(d, x) {
                    let k = choose|k: int| 0 <= k < d.len() && #[trigger] d[k].0 == x;
                    assert(draw_before(s[0].0, s[k + 1].0, seed));
                }
            } else {
                assert(draw_before(ri[i - 1].0, ri[j - 1].0, seed));
            }
        }
    }
}

/// The draw order is strictly ascending by draw key.
pub proof fn lemma_draw_order_sorted<V>(s: Seq<(u64, V)>, seed: u64)
    requires
        distinct_ids(s),
    ensures
        draw_sorted(draw_order(s, seed), seed),
    decreases s.len(),
{
    if s.len() > 0 {
        let d = s.drop_last();
        assert forall|i: int, j: int| 0 <= i < j < d.len() implies #[trigger] d[i].0 != #[trigger] d[j].0 by {
            assert(s[i].0 != s[j].0);
        }
        lemma_draw_order_sorted(d, seed);
        lemma_draw_order_ids(d, seed);
        assert(!has_id(d, s.last().0)) by {
            if has_id(d, s.last().0) {
                let i = choose|i: int| 0 <= i < d.len() && #[trigger] d[i].0 == s.last().0;
                assert(s[i].0 == s[s.len() - 1].0);
            }
        }
        assert(!has_id(draw_order(d, seed), s.last().0));
        lemma_insert_sorted(draw_order(d, seed), s.last(), seed);
    }
}

/// Two strictly ascending sequences with the same entries are equal.
pub proof fn lemma_sorted_unique<V>(a: Seq<(u64, V)>, b: Seq<(u64, V)>, seed: u64)
    requires
        draw_sorted(a, seed),
        draw_sorted(b, seed),
        forall|e: (u64, V)| a.contains(e) <==> b.contains(e),
    ensures
        a == b,
    decreases a.len(),
{
    if a.len() == 0 {
        if b.len() > 0 {
            assert(b.contains(b[0]));
        }
        assert(a =~= b);
    } else {
        assert(a.contains(a[0]));
        assert(b.len() > 0);
        assert(b.contains(b[0]));
        let k = choose|k: int| 0 <= k < b.len() && b[k] == a[0];
        let j = choose|j: int| 0 <= j < a.len() && a[j] == b[0];
        if k > 0 {
            assert(draw_before(b[0].0, b[k].0, seed));
            if j > 0 {
                assert(draw_before(a[0].0, a[j].0, seed));
                crate::text::lemma_lex_asymmetric(draw_key(a[0].0, seed), draw_key(b[0].0, seed));
            } else {
                crate::text::lemma_lex_irreflexive(draw_key(a[0].0, seed));
            }
        }
        assert(b[0] == a[0]);
        let a2 = a.drop_first();
        let b2 = b.drop_first();
        assert forall|e: (u64, V)| a2.contains(e) <==> b2.contains(e) by {
            if a2.contains(e) {
                let i = choose|i: int| 0 <= i < a2.len() && a2[i] == e;
                assert(a[i + 1] == e);
                assert(draw_before(a[0].0, a[i + 1].0, seed));
                crate::text::lemma_lex_irreflexive(draw_key(a[0].0, seed));
                assert(b.contains(e));
                let q = choose|q: int| 0 <= q < b.len() && b[q] == e;
                assert(q != 0);
                assert(b2[q - 1] == e);
            }
            if b2.contains(e) {
                let i = choose|i: int| 0 <= i < b2.len() && b2[i] == e;
                assert(b[i + 1] == e);
                assert(draw_before(b[0].0, b[i + 1].0, seed));
                crate::text::lemma_lex_irreflexive(draw_key(b[0].0, seed));
                assert(a.contains(e));
                let q = choose|q: int| 0 <= q < a.len() && a[q] == e;
                assert(q != 0);
                assert(a2[q - 1] == e);
            }
        }
        assert forall|i: int, j2: int| 0 <= i < j2 < a2.len() implies draw_before(#[trigger] a2[i].0, #[trigger] a2[j2].0, seed) by {
            assert(draw_before(a[i + 1].0, a[j2 + 1].0, seed));
        }
        assert forall|i: int, j2: int| 0 <= i < j2 < b2.len() implies draw_before(#[trigger] b2[i].0, #[trigger] b2[j2].0, seed) by {
            assert(draw_before(b[i + 1].0, b[j2 + 1].0, seed));
        }
        lemma_sorted_unique(a2, b2, seed);
        assert(a =~= seq![a[0]] + a2);
        assert(b =~= seq![b[0]] + b2);
    }
}

} // verus!
