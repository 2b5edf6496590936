use vstd::prelude::*;

verus! {

/// The ASCII decimal rendering of `n`, without leading zeros.
pub open spec fn decimal(n: nat) -> Seq<u8>
    decreases n,
{
    if n < 10 {
        seq![(48 + n) as u8]
    } else {
        decimal(n / 10).push((48 + n % 10) as u8)
    }
}

/// Every character of a decimal rendering is an ASCII digit.
pub proof fn lemma_decimal_digits(n: nat)
    ensures
        decimal(n).len() >= 1,
        forall|i: int| 0 <= i < decimal(n).len() ==> 48 <= #[trigger] decimal(n)[i] <= 57,
    decreases n,
{
    if n >= 10 {
        lemma_decimal_digits(n / 10);
    }
}

/// Distinct numbers have distinct renderings.
pub proof fn lemma_decimal_injective(a: nat, b: nat)
    requires
        decimal(a) == decimal(b),
    ensures
        a == b,
    decreases a,
{
    lemma_decimal_digits(a);
    lemma_decimal_digits(b);
    let da = decimal(a);
    let db = decimal(b);
    if a < 10 && b < 10 {
        assert(da[0] == db[0]);
    } else if a < 10 {
        lemma_decimal_digits(b / 10);
        assert(db.len() >= 2);
    } else if b < 10 {
        lemma_decimal_digits(a / 10);
        assert(da.len() >= 2);
    } else {
        assert(decimal(a / 10) == da.drop_last());
        assert(decimal(b / 10) == db.drop_last());
        assert(da.last() == db.last());
        lemma_decimal_injective(a / 10, b / 10);
    }
}

/// Appends the decimal rendering of `n` to `out`.
pub fn push_decimal(n: u64, out: &mut Vec<u8>)
    ensures
        final(out)@ == old(out)@ + decimal(n as nat),
    decreases n,
{
    if n >= 10 {
        push_decimal(n / 10, out);
    }
    out.push((48 + n % 10) as u8);
    assert(final(out)@ =~= old(out)@ + decimal(n as nat));
}

/// Strict lexicographic order on byte strings, a proper prefix coming first:
/// the order of `str` comparison.
pub open spec fn lex_less(a: Seq<u8>, b: Seq<u8>) -> bool
    decreases a.len(),
{
    if a.len() == 0 {
        b.len() > 0
    } else if b.len() == 0 {
        false
    } else if a[0] != b[0] {
        a[0] < b[0]
    } else {
        lex_less(a.drop_first(), b.drop_first())
    }
}

pub proof fn lemma_lex_irreflexive(a: Seq<u8>)
    ensures
        !lex_less(a, a),
    decreases a.len(),
{
    if a.len() > 0 {
        lemma_lex_irreflexive(a.drop_first());
    }
}

pub proof fn lemma_lex_total(a: Seq<u8>, b: Seq<u8>)
    ensures
        a == b || lex_less(a, b) || lex_less(b, a),
    decreases a.len(),
{
    if a.len() > 0 && b.len() > 0 && a[0] == b[0] {
        lemma_lex_total(a.drop_first(), b.drop_first());
        if a.drop_first() == b.drop_first() {
            assert(a =~= seq![a[0]] + a.drop_first());
            assert(b =~= seq![b[0]] + b.drop_first());
        }
    } else if a.len() == 0 && b.len() == 0 {
        assert(a =~= b);
    }
}

pub proof fn lemma_lex_asymmetric(a: Seq<u8>, b: Seq<u8>)
    requires
        lex_less(a, b),
    ensures
        !lex_less(b, a),
    decreases a.len(),
{
    if a.len() > 0 && b.len() > 0 && a[0] == b[0] {
        lemma_lex_asymmetric(a.drop_first(), b.drop_first());
    }
}

pub proof fn lemma_lex_transitive(a: Seq<u8>, b: Seq<u8>, c: Seq<u8>)
    requires
        lex_less(a, b),
        lex_less(b, c),
    ensures
        lex_less(a, c),
    decreases a.len(),
{
    if a.len() > 0 && b.len() > 0 && c.len() > 0 && a[0] == b[0] && b[0] == c[0] {
        lemma_lex_transitive(a.drop_first(), b.drop_first(), c.drop_first());
    }
}

/// Whether `a[i..]` comes strictly before `b[j..]`.
fn lex_less_from(a: &Vec<u8>, i: usize, b: &Vec<u8>, j: usize) -> (r: bool)
    requires
        i <= a@.len(),
        j <= b@.len(),
    ensures
        r == lex_less(a@.subrange(i as int, a@.len() as int), b@.subrange(j as int, b@.len() as int)),
    decreases a@.len() - i,
{
    let sa = Ghost(a@.subrange(i as int, a@.len() as int));
    let sb = Ghost(b@.subrange(j as int, b@.len() as int));
    if i == a.len() {
        j < b.len()
    } else if j == b.len() {
        false
    } else if a[i] != b[j] {
        a[i] < b[j]
    } else {
        assert(sa@.drop_first() =~= a@.subrange(i + 1, a@.len() as int));
        assert(sb@.drop_first() =~= b@.subrange(j + 1, b@.len() as int));
        lex_less_from(a, i + 1, b, j + 1)
    }
}

/// Whether `a` comes strictly before `b` in lexicographic byte order.
pub fn lex_less_bytes(a: &Vec<u8>, b: &Vec<u8>) -> (r: bool)
    ensures
        r == lex_less(a@, b@),
{
    assert(a@.subrange(0, a@.len() as int) =~= a@);
    assert(b@.subrange(0, b@.len() as int) =~= b@);
    lex_less_from(a, 0, b, 0)
}

/// The unsigned integer whose big-endian encoding is the first eight bytes of `s`.
pub open spec fn be_u64(s: Seq<u8>) -> u64
    recommends
        s.len() >= 8,
{
    (s[0] as int * 0x100000000000000 + s[1] as int * 0x1000000000000 + s[2] as int * 0x10000000000
        + s[3] as int * 0x100000000 + s[4] as int * 0x1000000 + s[5] as int * 0x10000
        + s[6] as int * 0x100 + s[7] as int) as u64
}

/// Reads the first eight bytes of `s` as a big-endian integer.
pub fn read_be_u64(s: &Vec<u8>) -> (r: u64)
    requires
        s@.len() >= 8,
    ensures
        r == be_u64(s@),
{
    (s[0] as u64) * 0x100000000000000 + (s[1] as u64) * 0x1000000000000 + (s[2] as u64)
        * 0x10000000000 + (s[3] as u64) * 0x100000000 + (s[4] as u64) * 0x1000000 + (s[5] as u64)
        * 0x10000 + (s[6] as u64) * 0x100 + (s[7] as u64)
}

} // verus!
