//! Natural numbers of any size, written in base 1000 with the lowest digit
//! first: enough to multiply by small factors, add, and divide by a power
//! of 1000, exactly.
use vstd::prelude::*;

use vstd::arithmetic::div_mod::lemma_fundamental_div_mod_converse;

verus! {

/// `1000` to the power `n`.
pub open spec fn thousand_pow(n: nat) -> nat
    decreases n,
{
    if n == 0 {
        1
    } else {
        1000 * thousand_pow((n - 1) as nat)
    }
}

/// The number the digits write, the lowest digit first.
pub open spec fn big_value(d: Seq<u32>) -> nat
    decreases d.len(),
{
    if d.len() == 0 {
        0
    } else {
        big_value(d.drop_last()) + thousand_pow((d.len() - 1) as nat) * (d.last() as nat)
    }
}

/// Every digit is below 1000.
pub open spec fn digits_ok(d: Seq<u32>) -> bool {
    forall|i: int| 0 <= i < d.len() ==> #[trigger] d[i] < 1000
}

pub proof fn lemma_pow_pos(n: nat)
    ensures
        thousand_pow(n) >= 1,
    decreases n,
{
    if n > 0 {
        lemma_pow_pos((n - 1) as nat);
    }
}

pub proof fn lemma_pow_add(a: nat, b: nat)
    ensures
        thousand_pow(a + b) == thousand_pow(a) * thousand_pow(b),
    decreases b,
{
    if b > 0 {
        lemma_pow_add(a, (b - 1) as nat);
        assert(thousand_pow(a + b) == 1000 * thousand_pow((a + b - 1) as nat));
        let x = thousand_pow(a);
        let y = thousand_pow((b - 1) as nat);
        assert((a + b - 1) as nat == a + (b - 1) as nat);
        assert(thousand_pow(b) == 1000 * y);
        assert(1000 * (x * y) == x * (1000 * y)) by (nonlinear_arith);
        assert(thousand_pow(a + b) == 1000 * (x * y));
        assert(thousand_pow(a) * thousand_pow(b) == x * (1000 * y));
    } else {
        assert(thousand_pow(0) == 1);
        assert(a + b == a);
        assert(thousand_pow(a) * 1 == thousand_pow(a));
    }
}

/// Digits below 1000 write a number below `1000^len`.
pub proof fn lemma_value_bound(d: Seq<u32>)
    requires
        digits_ok(d),
    ensures
        big_value(d) < thousand_pow(d.len()),
    decreases d.len(),
{
    if d.len() > 0 {
        let dl = d.drop_last();
        assert(digits_ok(dl)) by {
            assert forall|i: int| 0 <= i < dl.len() implies #[trigger] dl[i] < 1000 by {
                assert(dl[i] == d[i]);
            }
        }
        lemma_value_bound(dl);
        let p = thousand_pow((d.len() - 1) as nat);
        let v = big_value(dl);
        let x = d.last() as int;
        assert(x < 1000);
        assert(v + p * x < 1000 * p) by (nonlinear_arith)
            requires
                v < p,
                0 <= x < 1000,
        ;
    }
}

/// Pushing a digit adds it at the next power.
proof fn lemma_value_push(d: Seq<u32>, x: u32)
    ensures
        big_value(d.push(x)) == big_value(d) + thousand_pow(d.len()) * x,
{
    assert(d.push(x).drop_last() =~= d);
}

/// The digits from `k` on write the number divided by `1000^k`.
pub proof fn lemma_value_split(d: Seq<u32>, k: nat)
    requires
        k <= d.len(),
    ensures
        big_value(d) == big_value(d.take(k as int)) + thousand_pow(k) * big_value(d.skip(k as int)),
    decreases d.len(),
{
    if k == d.len() {
        assert(d.take(k as int) =~= d);
        assert(d.skip(k as int) =~= Seq::<u32>::empty());
        assert(big_value(d.skip(k as int)) == 0);
        assert(thousand_pow(k) * 0 == 0) by (nonlinear_arith);
    } else {
        let dl = d.drop_last();
        lemma_value_split(dl, k);
        assert(dl.take(k as int) =~= d.take(k as int));
        assert(d.skip(k as int).drop_last() =~= dl.skip(k as int));
        assert(d.skip(k as int).last() == d.last());
        let n1 = (d.len() - 1 - k) as nat;
        assert(d.skip(k as int).len() - 1 == n1);
        lemma_pow_add(k, n1);
        assert(k + n1 == d.len() - 1);
        let pk = thousand_pow(k);
        let pn = thousand_pow(n1);
        let s = big_value(dl.skip(k as int));
        let x = d.last() as int;
        assert(big_value(d) == big_value(dl) + thousand_pow((d.len() - 1) as nat) * x);
        assert(big_value(d.skip(k as int)) == s + pn * x);
        assert(thousand_pow((d.len() - 1) as nat) == pk * pn);
        assert(big_value(dl) == big_value(d.take(k as int)) + pk * s);
        assert(pk * (s + pn * x) == pk * s + (pk * pn) * x) by (nonlinear_arith);
    }
}

pub proof fn lemma_value_shift(d: Seq<u32>, k: nat)
    requires
        k <= d.len(),
        digits_ok(d),
    ensures
        big_value(d.skip(k as int)) == big_value(d) / thousand_pow(k),
        big_value(d.skip(k as int)) <= big_value(d),
{
    lemma_value_split(d, k);
    let t = d.take(k as int);
    assert(digits_ok(t)) by {
        assert forall|i: int| 0 <= i < t.len() implies #[trigger] t[i] < 1000 by {
            assert(t[i] == d[i]);
        }
    }
    lemma_value_bound(t);
    lemma_pow_pos(k);
    let p = thousand_pow(k) as int;
    let q = big_value(d.skip(k as int)) as int;
    let r = big_value(t) as int;
    assert(big_value(d) == q * p + r) by (nonlinear_arith)
        requires
            big_value(d) == r + p * q,
    ;
    lemma_fundamental_div_mod_converse(big_value(d) as int, p, q, r);
    assert(q <= q * p) by (nonlinear_arith)
        requires
            p >= 1,
            q >= 0,
    ;
}

/// `d` times a factor of at most 1000.
pub fn mul_small(d: &Vec<u32>, f: u32) -> (r: Vec<u32>)
    requires
        digits_ok(d@),
        f <= 1000,
    ensures
        digits_ok(r@),
        big_value(r@) == big_value(d@) * f,
{
    let mut out: Vec<u32> = Vec::new();
    let mut carry: u64 = 0;
    let mut i: usize = 0;
    proof {
        assert(d@.take(0) =~= Seq::<u32>::empty());
        assert(big_value(out@) == 0);
        assert(big_value(d@.take(0)) == 0);
        assert(thousand_pow(0) * 0 == 0);
        assert(0 * (f as int) == 0);
    }
    while i < d.len()
        invariant
            i <= d@.len(),
            f <= 1000,
            digits_ok(d@),
            digits_ok(out@),
            out@.len() == i,
            carry <= 1000,
            big_value(out@) + thousand_pow(i as nat) * carry == big_value(d@.take(i as int)) * f,
        decreases d@.len() - i,
    {
        let x = d[i] as u64;
        assert(x < 1000);
        assert(x * (f as u64) <= 999 * 1000) by (nonlinear_arith)
            requires
                x < 1000,
                f <= 1000,
        ;
        let t = x * (f as u64) + carry;
        let digit = (t % 1000) as u32;
        let next = t / 1000;
        proof {
            lemma_value_push(out@, digit);
            assert(d@.take(i + 1).drop_last() =~= d@.take(i as int));
            assert(d@.take(i + 1).last() == d@[i as int]);
            let p = thousand_pow(i as nat) as int;
            let v = big_value(d@.take(i as int)) as int;
            let o = big_value(out@) as int;
            assert(t == digit + 1000 * next);
            assert(o + p * digit + (1000 * p) * next == (v + p * x) * f) by (nonlinear_arith)
                requires
                    o + p * carry == v * f,
                    t == x * f + carry,
                    t == digit + 1000 * next,
            ;
        }
        out.push(digit);
        carry = next;
        i = i + 1;
    }
    assert(d@.take(i as int) =~= d@);
    let low = (carry % 1000) as u32;
    let high = (carry / 1000) as u32;
    proof {
        lemma_value_push(out@, low);
        lemma_value_push(out@.push(low), high);
        let p = thousand_pow(i as nat) as int;
        assert(p * low + (1000 * p) * high == p * carry) by (nonlinear_arith)
            requires
                carry == low + 1000 * high,
        ;
    }
    out.push(low);
    out.push(high);
    out
}

/// The same number with zero digits added at the top up to `n` digits.
fn pad_to(d: &mut Vec<u32>, n: usize)
    requires
        digits_ok(old(d)@),
        old(d)@.len() <= n,
    ensures
        digits_ok(final(d)@),
        big_value(final(d)@) == big_value(old(d)@),
        final(d)@.len() == n,
{
    while d.len() < n
        invariant
            digits_ok(d@),
            big_value(d@) == big_value(old(d)@),
            d@.len() <= n,
        decreases n - d@.len(),
    {
        proof {
            lemma_value_push(d@, 0);
        }
        d.push(0);
    }
}

/// The sum of two numbers.
pub fn add_big(a: &Vec<u32>, b: &Vec<u32>) -> (r: Vec<u32>)
    requires
        digits_ok(a@),
        digits_ok(b@),
    ensures
        digits_ok(r@),
        big_value(r@) == big_value(a@) + big_value(b@),
{
    let n = if a.len() > b.len() {
        a.len()
    } else {
        b.len()
    };
    let mut x = a.clone();
    let mut y = b.clone();
    assert(x@ == a@);
    assert(y@ == b@);
    pad_to(&mut x, n);
    pad_to(&mut y, n);
    let len = n;
    let mut out: Vec<u32> = Vec::new();
    let mut carry: u32 = 0;
    let mut i: usize = 0;
    assert(x@.take(0) =~= Seq::<u32>::empty());
    assert(y@.take(0) =~= Seq::<u32>::empty());
    while i < len
        invariant
            len == x@.len(),
            len == y@.len(),
            i <= len,
            digits_ok(x@),
            digits_ok(y@),
            digits_ok(out@),
            out@.len() == i,
            carry <= 1,
            big_value(out@) + thousand_pow(i as nat) * carry == big_value(x@.take(i as int)) + big_value(
                y@.take(i as int),
            ),
        decreases len - i,
    {
        let s = x[i] + y[i] + carry;
        let digit = s % 1000;
        let next = s / 1000;
        proof {
            lemma_value_push(out@, digit);
            assert(x@.take(i + 1).drop_last() =~= x@.take(i as int));
            assert(y@.take(i + 1).drop_last() =~= y@.take(i as int));
            assert(x@.take(i + 1).last() == x@[i as int]);
            assert(y@.take(i + 1).last() == y@[i as int]);
            let p = thousand_pow(i as nat) as int;
            assert(thousand_pow((i + 1) as nat) == 1000 * p);
            assert(big_value(x@.take(i + 1)) == big_value(x@.take(i as int)) + p * x@[i as int]);
            assert(big_value(y@.take(i + 1)) == big_value(y@.take(i as int)) + p * y@[i as int]);
            assert(p * digit + (1000 * p) * next == p * x@[i as int] + p * y@[i as int] + p * carry) by (nonlinear_arith)
                requires
                    s == digit + 1000 * next,
                    s == x@[i as int] + y@[i as int] + carry,
            ;
        }
        out.push(digit);
        carry = next;
        i = i + 1;
    }
    assert(x@.take(i as int) =~= x@);
    assert(y@.take(i as int) =~= y@);
    proof {
        lemma_value_push(out@, carry);
    }
    out.push(carry);
    out
}

/// The digits from `k` on.
pub fn skip_digits(d: &Vec<u32>, k: usize) -> (r: Vec<u32>)
    requires
        k <= d@.len(),
    ensures
        r@ == d@.skip(k as int),
{
    let mut out: Vec<u32> = Vec::new();
    let mut i: usize = k;
    while i < d.len()
        invariant
            k <= i <= d@.len(),
            out@ == d@.subrange(k as int, i as int),
        decreases d@.len() - i,
    {
        out.push(d[i]);
        assert(d@.subrange(k as int, i + 1) =~= d@.subrange(k as int, i as int).push(d@[i as int]));
        i = i + 1;
    }
    assert(d@.subrange(k as int, i as int) =~= d@.skip(k as int));
    out
}

/// The number written by `d`, when it is at most 1000.
pub fn small_value(d: &Vec<u32>) -> (r: u32)
    requires
        digits_ok(d@),
        big_value(d@) <= 1000,
    ensures
        r == big_value(d@),
{
    let mut acc: u64 = 0;
    let mut j: usize = d.len();
    assert(d@.skip(j as int) =~= Seq::<u32>::empty());
    while j > 0
        invariant
            j <= d@.len(),
            digits_ok(d@),
            big_value(d@) <= 1000,
            acc == big_value(d@.skip(j as int)),
        decreases j,
    {
        let ghost s = d@.skip(j - 1);
        proof {
            lemma_value_shift(d@, j as nat);
            assert(thousand_pow(1) == 1000) by {
                assert(thousand_pow(0) == 1);
            }
            lemma_value_split(s, 1);
            assert(s.skip(1) =~= d@.skip(j as int));
            assert(s.take(1) =~= seq![d@[j - 1]]);
            assert(big_value(seq![d@[j - 1]]) == d@[j - 1]) by {
                let t = seq![d@[j - 1]];
                assert(t.len() == 1);
                assert(t.last() == d@[j - 1]);
                assert(t.drop_last() =~= Seq::<u32>::empty());
                assert(big_value(t.drop_last()) == 0);
                assert(thousand_pow(0) == 1);
                assert(big_value(t) == big_value(t.drop_last()) + thousand_pow(0) * (t.last() as nat));
            }
            lemma_value_shift(d@, (j - 1) as nat);
        }
        acc = acc * 1000 + d[j - 1] as u64;
        j = j - 1;
    }
    assert(d@.skip(0) =~= d@);
    acc as u32
}

} // verus!
