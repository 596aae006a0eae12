//! Fixed-width unsigned integers made of little-endian 64-bit limbs.
//!
//! The reservation-vote aggregate and the pro-rata split need integers of
//! 192, 256 and 384 bits; this module gives them, with each operation stated
//! over the mathematical value of the limbs.
use vstd::arithmetic::div_mod::{
    lemma_div_denominator, lemma_fundamental_div_mod, lemma_fundamental_div_mod_converse,
};
use vstd::arithmetic::power2::{lemma2_to64, lemma2_to64_rest, lemma_pow2_adds, lemma_pow2_pos, lemma_pow2_unfold, pow2};
use vstd::bits::lemma_u64_shr_is_div;
use vstd::prelude::*;

verus! {

/// The weight of one limb: 2^64.
pub open spec fn limb_base() -> nat {
    pow2(64)
}

/// The value of a little-endian limb sequence.
pub open spec fn limbs_val(s: Seq<u64>) -> nat
    decreases s.len(),
{
    if s.len() == 0 {
        0
    } else {
        s[0] as nat + limb_base() * limbs_val(s.drop_first())
    }
}

/// The largest value that `n` limbs can hold, plus one.
pub open spec fn cap(n: nat) -> nat {
    pow2(64 * n)
}

/// An unsigned integer of `limbs.len()` limbs, least significant first.
#[derive(Debug)]
pub struct WideUint {
    pub limbs: Vec<u64>,
}

impl WideUint {
    pub open spec fn val(&self) -> nat {
        limbs_val(self.limbs@)
    }

    pub open spec fn width(&self) -> nat {
        self.limbs@.len()
    }
}

pub proof fn lemma_limb_base()
    ensures
        limb_base() == 0x1_0000_0000_0000_0000,
{
    lemma2_to64();
    lemma2_to64_rest();
}

/// A value of `n` limbs is below `cap(n)`.
pub proof fn lemma_val_bound(s: Seq<u64>)
    ensures
        limbs_val(s) < cap(s.len()),
    decreases s.len(),
{
    lemma_limb_base();
    if s.len() == 0 {
        lemma2_to64();
    } else {
        let rest = s.drop_first();
        lemma_val_bound(rest);
        lemma_pow2_adds(64, 64 * rest.len());
        assert(64 * s.len() == 64 + 64 * rest.len());
        let v = limbs_val(rest);
        let c = cap(rest.len());
        assert(s[0] as nat + limb_base() * v < limb_base() * c) by (nonlinear_arith)
            requires
                v < c,
                s[0] < limb_base(),
        ;
    }
}

/// The value of a prefix grows by the next limb at its weight.
pub proof fn lemma_val_prefix(s: Seq<u64>, i: int)
    requires
        0 <= i < s.len(),
    ensures
        limbs_val(s.take(i + 1)) == limbs_val(s.take(i)) + s[i] as nat * cap(i as nat),
    decreases i,
{
    if i == 0 {
        assert(s.take(1).drop_first() =~= Seq::<u64>::empty());
        assert(s.take(0) =~= Seq::<u64>::empty());
        assert(limbs_val(Seq::<u64>::empty()) == 0);
        assert(s.take(1)[0] == s[0]);
        assert(limbs_val(s.take(1)) == s[0] as nat + limb_base() * limbs_val(s.take(1).drop_first()));
        lemma2_to64();
        assert(cap(0) == 1);
        assert(limb_base() * 0 == 0);
    } else {
        let r = s.drop_first();
        lemma_val_prefix(r, i - 1);
        assert(s.take(i + 1).drop_first() =~= r.take(i));
        assert(s.take(i).drop_first() =~= r.take(i - 1));
        lemma_pow2_adds(64, 64 * ((i - 1) as nat));
        let a = limbs_val(r.take(i - 1));
        let x = s[i] as nat;
        let c = cap((i - 1) as nat);
        assert(r[i - 1] == s[i]);
        assert(cap(i as nat) == limb_base() * c) by {
            assert(64 + 64 * ((i - 1) as nat) == 64 * (i as nat));
        }
        assert(s.take(i + 1)[0] == s[0]);
        assert(s.take(i)[0] == s[0]);
        assert(limbs_val(s.take(i + 1)) == s[0] as nat + limb_base() * limbs_val(r.take(i)));
        assert(limbs_val(s.take(i)) == s[0] as nat + limb_base() * a);
        assert(limb_base() * (a + x * c) == limb_base() * a + x * (limb_base() * c))
            by (nonlinear_arith);
    }
}

/// Limbs of zero have value zero.
pub proof fn lemma_val_zeros(s: Seq<u64>)
    requires
        forall|j: int| 0 <= j < s.len() ==> s[j] == 0,
    ensures
        limbs_val(s) == 0,
    decreases s.len(),
{
    if s.len() > 0 {
        let rest = s.drop_first();
        assert forall|j: int| 0 <= j < rest.len() implies rest[j] == 0 by {
            assert(rest[j] == s[j + 1]);
        }
        lemma_val_zeros(rest);
        assert(s[0] == 0);
        assert(limbs_val(s) == s[0] as nat + limb_base() * limbs_val(rest));
    }
}

/// `n` limbs of zero.
pub fn zero(n: usize) -> (r: WideUint)
    ensures
        r.width() == n,
        r.val() == 0,
{
    let mut limbs: Vec<u64> = Vec::new();
    let mut i: usize = 0;
    while i < n
        invariant
            i <= n,
            limbs@.len() == i,
            forall|j: int| 0 <= j < i ==> limbs@[j] == 0,
        decreases n - i,
    {
        limbs.push(0);
        i = i + 1;
    }
    proof {
        lemma_val_zeros(limbs@);
    }
    WideUint { limbs }
}

/// Adds two values of one width and an incoming carry; returns the sum modulo
/// the width and the outgoing carry.
pub fn add_carry(a: &WideUint, b: &WideUint, carry_in: bool) -> (r: (WideUint, bool))
    requires
        a.width() == b.width(),
    ensures
        r.0.width() == a.width(),
        r.0.val() + (if r.1 { cap(a.width()) } else { 0 }) == a.val() + b.val() + (if carry_in {
            1int
        } else {
            0int
        }),
{
    let n = a.limbs.len();
    let mut limbs: Vec<u64> = Vec::new();
    let mut carry: u64 = if carry_in { 1 } else { 0 };
    let mut i: usize = 0;
    proof {
        lemma_limb_base();
        lemma2_to64();
        assert(a.limbs@.take(0) =~= Seq::<u64>::empty());
        assert(b.limbs@.take(0) =~= Seq::<u64>::empty());
    }
    while i < n
        invariant
            n == a.limbs@.len(),
            n == b.limbs@.len(),
            i <= n,
            limbs@.len() == i,
            carry <= 1,
            limb_base() == 0x1_0000_0000_0000_0000,
            limbs_val(limbs@) + carry * cap(i as nat) == limbs_val(a.limbs@.take(i as int))
                + limbs_val(b.limbs@.take(i as int)) + (if carry_in { 1int } else { 0int }),
        decreases n - i,
    {
        let s: u128 = a.limbs[i] as u128 + b.limbs[i] as u128 + carry as u128;
        let lo: u64 = (s % 0x1_0000_0000_0000_0000) as u64;
        let hi: u64 = (s / 0x1_0000_0000_0000_0000) as u64;
        proof {
            lemma_val_prefix(a.limbs@, i as int);
            lemma_val_prefix(b.limbs@, i as int);
            let old_limbs = limbs@;
            let new_limbs = old_limbs.push(lo);
            assert(new_limbs.take(i as int) =~= old_limbs);
            lemma_val_prefix(new_limbs, i as int);
            assert(new_limbs.take(i as int + 1) =~= new_limbs);
            lemma_pow2_adds(64 * i as nat, 64);
            let c = cap(i as nat);
            assert(hi * cap((i + 1) as nat) == hi * limb_base() * c) by (nonlinear_arith)
                requires
                    cap((i + 1) as nat) == c * limb_base(),
            ;
            assert((lo + hi * limb_base()) * c == lo * c + hi * limb_base() * c)
                by (nonlinear_arith);
            assert((a.limbs@[i as int] + b.limbs@[i as int] + carry) * c == a.limbs@[i as int] * c
                + b.limbs@[i as int] * c + carry * c) by (nonlinear_arith);
        }
        limbs.push(lo);
        carry = hi;
        i = i + 1;
    }
    proof {
        assert(a.limbs@.take(n as int) =~= a.limbs@);
        assert(b.limbs@.take(n as int) =~= b.limbs@);
    }
    (WideUint { limbs }, carry == 1)
}

/// Subtracts `b` from `a` of one width; returns the difference modulo the
/// width and whether a borrow was needed, that is whether `a < b`.
pub fn sub_borrow(a: &WideUint, b: &WideUint) -> (r: (WideUint, bool))
    requires
        a.width() == b.width(),
    ensures
        r.0.width() == a.width(),
        r.1 == (a.val() < b.val()),
        r.0.val() == a.val() - b.val() + (if r.1 { cap(a.width()) } else { 0 }),
{
    let n = a.limbs.len();
    let mut limbs: Vec<u64> = Vec::new();
    let mut borrow: u64 = 0;
    let mut i: usize = 0;
    proof {
        lemma_limb_base();
        lemma2_to64();
        assert(a.limbs@.take(0) =~= Seq::<u64>::empty());
        assert(b.limbs@.take(0) =~= Seq::<u64>::empty());
    }
    while i < n
        invariant
            n == a.limbs@.len(),
            n == b.limbs@.len(),
            i <= n,
            limbs@.len() == i,
            borrow <= 1,
            limb_base() == 0x1_0000_0000_0000_0000,
            limbs_val(limbs@) == limbs_val(a.limbs@.take(i as int)) - limbs_val(
                b.limbs@.take(i as int),
            ) + borrow * cap(i as nat),
        decreases n - i,
    {
        let x: u128 = a.limbs[i] as u128;
        let y: u128 = b.limbs[i] as u128 + borrow as u128;
        let lo: u64;
        let nb: u64;
        if x >= y {
            lo = (x - y) as u64;
            nb = 0;
        } else {
            lo = (x + 0x1_0000_0000_0000_0000 - y) as u64;
            nb = 1;
        }
        proof {
            lemma_val_prefix(a.limbs@, i as int);
            lemma_val_prefix(b.limbs@, i as int);
            let old_limbs = limbs@;
            let new_limbs = old_limbs.push(lo);
            assert(new_limbs.take(i as int) =~= old_limbs);
            lemma_val_prefix(new_limbs, i as int);
            assert(new_limbs.take(i as int + 1) =~= new_limbs);
            lemma_pow2_adds(64 * i as nat, 64);
            let c = cap(i as nat);
            assert(nb * cap((i + 1) as nat) == nb * limb_base() * c) by (nonlinear_arith)
                requires
                    cap((i + 1) as nat) == c * limb_base(),
            ;
            assert((lo - nb * limb_base()) * c == lo * c - nb * limb_base() * c)
                by (nonlinear_arith);
            assert((a.limbs@[i as int] - b.limbs@[i as int] - borrow) * c == a.limbs@[i as int] * c
                - b.limbs@[i as int] * c - borrow * c) by (nonlinear_arith);
        }
        limbs.push(lo);
        borrow = nb;
        i = i + 1;
    }
    proof {
        assert(a.limbs@.take(n as int) =~= a.limbs@);
        assert(b.limbs@.take(n as int) =~= b.limbs@);
        lemma_val_bound(limbs@);
        lemma_val_bound(a.limbs@);
        lemma_val_bound(b.limbs@);
    }
    (WideUint { limbs }, borrow == 1)
}

/// A value splits at any limb into its low part and its high part.
pub proof fn lemma_val_split(s: Seq<u64>, q: int)
    requires
        0 <= q <= s.len(),
    ensures
        limbs_val(s) == limbs_val(s.take(q)) + cap(q as nat) * limbs_val(s.skip(q)),
    decreases q,
{
    if q == 0 {
        assert(s.take(0) =~= Seq::<u64>::empty());
        assert(limbs_val(s.take(0)) == 0);
        assert(s.skip(0) =~= s);
        lemma2_to64();
        assert(cap(0) == 1);
        let v = limbs_val(s);
        assert(limbs_val(s.skip(0)) == v);
        assert(cap(0) * v == v) by (nonlinear_arith)
            requires
                cap(0) == 1,
        ;
    } else {
        let r = s.drop_first();
        lemma_val_split(r, q - 1);
        assert(limbs_val(s) == s[0] as nat + limb_base() * limbs_val(r));
        assert(r.skip(q - 1) =~= s.skip(q));
        assert(s.take(q).drop_first() =~= r.take(q - 1));
        assert(s.take(q)[0] == s[0]);
        assert(limbs_val(s.take(q)) == s[0] as nat + limb_base() * limbs_val(r.take(q - 1)));
        assert(cap(q as nat) == limb_base() * cap((q - 1) as nat)) by {
            lemma_pow2_adds(64, 64 * ((q - 1) as nat));
            assert(64 + 64 * ((q - 1) as nat) == 64 * (q as nat));
        }
        let lo = limbs_val(r.take(q - 1));
        let hi = limbs_val(s.skip(q));
        let c = cap((q - 1) as nat);
        assert(limbs_val(r) == lo + c * hi);
        assert(limb_base() * (lo + c * hi) == limb_base() * lo + (limb_base() * c) * hi)
            by (nonlinear_arith);
        assert(limbs_val(s) == limbs_val(s.take(q)) + (limb_base() * c) * hi);
    }
}

/// The low `q` limbs are the value modulo `cap(q)`; the rest is the quotient.
pub proof fn lemma_val_div_cap(s: Seq<u64>, q: int)
    requires
        0 <= q <= s.len(),
    ensures
        limbs_val(s) / cap(q as nat) == limbs_val(s.skip(q)),
        limbs_val(s) % cap(q as nat) == limbs_val(s.take(q)),
{
    lemma_val_split(s, q);
    lemma_val_bound(s.take(q));
    assert(s.take(q).len() == q);
    lemma_pow2_pos(64 * (q as nat));
    let lo = limbs_val(s.take(q));
    let hi = limbs_val(s.skip(q));
    assert(limbs_val(s) == hi * cap(q as nat) + lo) by (nonlinear_arith)
        requires
            limbs_val(s) == lo + cap(q as nat) * hi,
    ;
    lemma_fundamental_div_mod_converse(
        limbs_val(s) as int,
        cap(q as nat) as int,
        limbs_val(s.skip(q)) as int,
        limbs_val(s.take(q)) as int,
    );
}

/// One more bit from the top: the value shifted by `t - 1` is twice the value
/// shifted by `t`, plus the bit at `t - 1`.
pub proof fn lemma_shift_step(x: nat, t: nat)
    requires
        t >= 1,
    ensures
        x / pow2((t - 1) as nat) == 2 * (x / pow2(t)) + (x / pow2((t - 1) as nat)) % 2,
{
    let d = pow2((t - 1) as nat);
    lemma_pow2_pos((t - 1) as nat);
    lemma_pow2_unfold(t);
    let y = x / d;
    lemma_div_denominator(x as int, d as int, 2);
    assert(d * 2 == pow2(t));
    lemma_fundamental_div_mod(y as int, 2);
}

/// The bit of a value at position `t` is the bit of its limb.
pub proof fn lemma_bit_of_limb(s: Seq<u64>, t: nat)
    requires
        t < 64 * s.len(),
    ensures
        (limbs_val(s) / pow2(t)) % 2 == (s[(t / 64) as int] as nat / pow2(t % 64)) % 2,
{
    let q = (t / 64) as int;
    let r = t % 64;
    assert(q < s.len()) by (nonlinear_arith)
        requires
            t < 64 * s.len(),
            q == t / 64,
    ;
    let v = limbs_val(s);
    lemma_pow2_adds(64 * (q as nat), r);
    assert(64 * (q as nat) + r == t);
    lemma_pow2_pos(64 * (q as nat));
    lemma_pow2_pos(r);
    lemma_div_denominator(v as int, cap(q as nat) as int, pow2(r) as int);
    lemma_val_div_cap(s, q);
    let sk = s.skip(q);
    assert(sk.drop_first() =~= s.skip(q + 1));
    let hi = limbs_val(s.skip(q + 1));
    assert(limbs_val(sk) == s[q] as nat + limb_base() * hi);
    let d = pow2(r);
    let e = pow2((64 - r) as nat);
    lemma_pow2_adds(r, (64 - r) as nat);
    assert(limb_base() == d * e);
    lemma_pow2_unfold((64 - r) as nat);
    let e2 = pow2((63 - r) as nat);
    assert(e == 2 * e2);
    let x = s[q] as nat;
    lemma_fundamental_div_mod(x as int, d as int);
    let xq = x / d;
    let xr = x % d;
    assert(limbs_val(sk) == d * (xq + e * hi) + xr) by (nonlinear_arith)
        requires
            limbs_val(sk) == x + (d * e) * hi,
            x == d * xq + xr,
    ;
    lemma_fundamental_div_mod_converse(limbs_val(sk) as int, d as int, (xq + e * hi) as int, xr as int);
    assert(xq + e * hi == xq + 2 * (e2 * hi)) by (nonlinear_arith)
        requires
            e == 2 * e2,
    ;
    lemma_fundamental_div_mod(xq as int, 2);
    lemma_fundamental_div_mod_converse(
        (xq + 2 * (e2 * hi)) as int,
        2,
        (xq / 2 + e2 * hi) as int,
        (xq % 2) as int,
    );
}

/// A sequence of value zero has only zero limbs, and the other way round.
pub proof fn lemma_val_zero_iff(s: Seq<u64>)
    ensures
        (limbs_val(s) == 0) == (forall|j: int| 0 <= j < s.len() ==> s[j] == 0),
    decreases s.len(),
{
    if s.len() == 0 {
    } else {
        let rest = s.drop_first();
        lemma_val_zero_iff(rest);
        lemma_limb_base();
        if limbs_val(s) == 0 {
            assert(s[0] == 0);
            assert(limbs_val(rest) == 0) by (nonlinear_arith)
                requires
                    0 == s[0] as nat + limb_base() * limbs_val(rest),
                    limb_base() > 0,
            ;
            assert forall|j: int| 0 <= j < s.len() implies s[j] == 0 by {
                if j > 0 {
                    assert(s[j] == rest[j - 1]);
                }
            }
        }
        if forall|j: int| 0 <= j < s.len() ==> s[j] == 0 {
            lemma_val_zeros(s);
        }
    }
}

/// A value that fits in `n` limbs, given as `u128`.
pub fn from_u128(x: u128, n: usize) -> (r: WideUint)
    requires
        n >= 2,
    ensures
        r.width() == n,
        r.val() == x,
{
    let z = zero(n);
    let mut limbs = z.limbs;
    let lo: u64 = (x % 0x1_0000_0000_0000_0000) as u64;
    let hi: u64 = (x / 0x1_0000_0000_0000_0000) as u64;
    proof {
        lemma_val_zero_iff(limbs@);
    }
    let ghost zs = limbs@;
    limbs.set(0, lo);
    limbs.set(1, hi);
    proof {
        let s = limbs@;
        lemma_limb_base();
        lemma_val_split(s, 2);
        assert forall|j: int| 0 <= j < s.skip(2).len() implies s.skip(2)[j] == 0 by {
            assert(s.skip(2)[j] == zs[j + 2]);
        }
        lemma_val_zeros(s.skip(2));
        let p = s.take(2);
        assert(p.drop_first().drop_first() =~= Seq::<u64>::empty());
        assert(limbs_val(p.drop_first()) == hi as nat + limb_base() * limbs_val(p.drop_first().drop_first()));
        assert(limbs_val(p) == lo as nat + limb_base() * limbs_val(p.drop_first()));
    }
    WideUint { limbs }
}

/// The value modulo 2^128.
pub fn low_u128(a: &WideUint) -> (r: u128)
    requires
        a.width() >= 2,
    ensures
        r == a.val() % cap(2),
{
    let lo = a.limbs[0];
    let hi = a.limbs[1];
    proof {
        lemma_val_div_cap(a.limbs@, 2);
        lemma_limb_base();
        let p = a.limbs@.take(2);
        assert(p.drop_first().drop_first() =~= Seq::<u64>::empty());
        assert(limbs_val(p.drop_first()) == hi as nat + limb_base() * limbs_val(p.drop_first().drop_first()));
        assert(limbs_val(p) == lo as nat + limb_base() * limbs_val(p.drop_first()));
    }
    lo as u128 + (hi as u128) * 0x1_0000_0000_0000_0000
}

/// The same value on `n` limbs, for `n` at least the width.
pub fn widen(a: &WideUint, n: usize) -> (r: WideUint)
    requires
        a.width() <= n,
    ensures
        r.width() == n,
        r.val() == a.val(),
{
    let mut limbs: Vec<u64> = Vec::new();
    let mut i: usize = 0;
    let w = a.limbs.len();
    while i < n
        invariant
            w == a.limbs@.len(),
            w <= n,
            i <= n,
            limbs@.len() == i,
            forall|j: int| 0 <= j < i && j < w ==> limbs@[j] == a.limbs@[j],
            forall|j: int| w <= j < i ==> limbs@[j] == 0,
        decreases n - i,
    {
        if i < w {
            limbs.push(a.limbs[i]);
        } else {
            limbs.push(0);
        }
        i = i + 1;
    }
    proof {
        let s = limbs@;
        lemma_val_split(s, w as int);
        assert(s.take(w as int) =~= a.limbs@);
        assert forall|j: int| 0 <= j < s.skip(w as int).len() implies s.skip(w as int)[j] == 0 by {
            assert(s.skip(w as int)[j] == s[j + w]);
        }
        lemma_val_zeros(s.skip(w as int));
    }
    WideUint { limbs }
}

/// The value modulo `cap(n)`, on `n` limbs, for `n` at most the width.
pub fn truncate(a: &WideUint, n: usize) -> (r: WideUint)
    requires
        n <= a.width(),
    ensures
        r.width() == n,
        r.val() == a.val() % cap(n as nat),
{
    let mut limbs: Vec<u64> = Vec::new();
    let mut i: usize = 0;
    while i < n
        invariant
            n <= a.limbs@.len(),
            i <= n,
            limbs@ == a.limbs@.take(i as int),
        decreases n - i,
    {
        limbs.push(a.limbs[i]);
        i = i + 1;
        proof {
            assert(limbs@ =~= a.limbs@.take(i as int));
        }
    }
    proof {
        lemma_val_div_cap(a.limbs@, n as int);
    }
    WideUint { limbs }
}

/// Whether the value is zero.
pub fn is_zero(a: &WideUint) -> (r: bool)
    ensures
        r == (a.val() == 0),
{
    let mut i: usize = 0;
    while i < a.limbs.len()
        invariant
            i <= a.limbs@.len(),
            forall|j: int| 0 <= j < i ==> a.limbs@[j] == 0,
        decreases a.limbs@.len() - i,
    {
        if a.limbs[i] != 0 {
            proof {
                lemma_val_zero_iff(a.limbs@);
            }
            return false;
        }
        i = i + 1;
    }
    proof {
        lemma_val_zero_iff(a.limbs@);
    }
    true
}

/// The largest value of `n` limbs.
pub fn max_value(n: usize) -> (r: WideUint)
    requires
        n >= 2,
    ensures
        r.width() == n,
        r.val() == cap(n as nat) - 1,
{
    let z = zero(n);
    let one = from_u128(1, n);
    let (m, _) = sub_borrow(&z, &one);
    m
}

/// `a + b`, or the largest value of the width where that does not fit.
pub fn saturating_add(a: &WideUint, b: &WideUint) -> (r: WideUint)
    requires
        a.width() == b.width(),
        a.width() >= 2,
    ensures
        r.width() == a.width(),
        r.val() == if a.val() + b.val() < cap(a.width()) {
            a.val() + b.val()
        } else {
            (cap(a.width()) - 1) as nat
        },
{
    let (s, carry) = add_carry(a, b, false);
    proof {
        lemma_val_bound(s.limbs@);
    }
    if carry {
        max_value(a.limbs.len())
    } else {
        s
    }
}

/// `a - b`, or zero where `b` is larger.
pub fn saturating_sub(a: &WideUint, b: &WideUint) -> (r: WideUint)
    requires
        a.width() == b.width(),
    ensures
        r.width() == a.width(),
        r.val() == if a.val() >= b.val() {
            (a.val() - b.val()) as nat
        } else {
            0
        },
{
    let (d, borrow) = sub_borrow(a, b);
    if borrow {
        zero(a.limbs.len())
    } else {
        d
    }
}

/// The value on `n` limbs, or the largest value of `n` limbs where it does not fit.
pub fn saturate(a: &WideUint, n: usize) -> (r: WideUint)
    requires
        2 <= n <= a.width(),
    ensures
        r.width() == n,
        r.val() == if a.val() < cap(n as nat) {
            a.val()
        } else {
            (cap(n as nat) - 1) as nat
        },
{
    let mut upper: Vec<u64> = Vec::new();
    let mut i: usize = n;
    while i < a.limbs.len()
        invariant
            n <= i <= a.limbs@.len(),
            upper@ == a.limbs@.subrange(n as int, i as int),
        decreases a.limbs@.len() - i,
    {
        upper.push(a.limbs[i]);
        i = i + 1;
        proof {
            assert(upper@ =~= a.limbs@.subrange(n as int, i as int));
        }
    }
    let high = WideUint { limbs: upper };
    proof {
        assert(high.limbs@ =~= a.limbs@.skip(n as int));
        lemma_val_div_cap(a.limbs@, n as int);
        lemma_pow2_pos(64 * (n as nat));
        lemma_fundamental_div_mod(a.val() as int, cap(n as nat) as int);
        lemma_val_split(a.limbs@, n as int);
        lemma_val_bound(a.limbs@.take(n as int));
        let lo = limbs_val(a.limbs@.take(n as int));
        let hv = high.val();
        let c = cap(n as nat);
        if hv == 0 {
            assert(c * hv == 0) by (nonlinear_arith) requires hv == 0;
            vstd::arithmetic::div_mod::lemma_small_mod(a.val(), c);
        } else {
            assert(c * hv >= c) by (nonlinear_arith) requires hv >= 1, c > 0;
        }
    }
    if is_zero(&high) {
        truncate(a, n)
    } else {
        max_value(n)
    }
}

/// The exact product, on the sum of the widths.
pub fn product(a: &WideUint, b: &WideUint) -> (r: WideUint)
    requires
        a.width() >= 1,
        b.width() >= 1,
        a.width() + b.width() <= 64,
    ensures
        r.width() == a.width() + b.width(),
        r.val() == a.val() * b.val(),
{
    let n = a.limbs.len() + b.limbs.len();
    let wb = b.limbs.len();
    let wide_a = widen(a, n);
    let zero_n = zero(n);
    let mut acc = zero(n);
    let mut t: usize = 64 * wb;
    proof {
        lemma_val_bound(a.limbs@);
        lemma_val_bound(b.limbs@);
        lemma_pow2_pos(t as nat);
        assert(b.val() / pow2(t as nat) == 0) by {
            vstd::arithmetic::div_mod::lemma_basic_div(b.val() as int, pow2(t as nat) as int);
        }
        lemma_pow2_adds(64 * a.width(), 64 * b.width());
        assert(64 * a.width() + 64 * b.width() == 64 * (n as nat));
    }
    while t > 0
        invariant
            n == a.limbs@.len() + b.limbs@.len(),
            wb == b.limbs@.len(),
            t <= 64 * wb,
            wide_a.width() == n,
            wide_a.val() == a.val(),
            zero_n.width() == n,
            zero_n.val() == 0,
            acc.width() == n,
            acc.val() == a.val() * (b.val() / pow2(t as nat)),
            a.val() < cap(a.width()),
            b.val() < cap(b.width()),
            cap(n as nat) == cap(a.width()) * cap(b.width()),
        decreases t,
    {
        let tt = t - 1;
        let limb = b.limbs[tt / 64];
        let sh = (tt % 64) as u64;
        let bit = (limb >> sh) & 1;
        let ghost top = b.val() / pow2(t as nat);
        let ghost top2 = b.val() / pow2(tt as nat);
        proof {
            lemma_u64_shr_is_div(limb, sh);
            let y = limb >> sh;
            assert(y & 1 == y % 2) by (bit_vector);
            lemma_bit_of_limb(b.limbs@, tt as nat);
            lemma_shift_step(b.val(), t as nat);
            lemma_pow2_pos(tt as nat);
            assert(top2 <= b.val()) by {
                vstd::arithmetic::div_mod::lemma_div_is_ordered_by_denominator(
                    b.val() as int, 1, pow2(tt as nat) as int);
                vstd::arithmetic::div_mod::lemma_div_basics(b.val() as int);
            }
            assert(a.val() * top2 <= a.val() * b.val()) by (nonlinear_arith)
                requires top2 <= b.val();
            assert(a.val() * b.val() < cap(a.width()) * cap(b.width())) by (nonlinear_arith)
                requires a.val() < cap(a.width()), b.val() < cap(b.width());
            assert(a.val() * top2 == 2 * (a.val() * top) + (if bit == 1 { a.val() } else { 0 }))
                by (nonlinear_arith)
                requires top2 == 2 * top + bit, bit <= 1;
        }
        let (dbl, _c1) = add_carry(&acc, &acc, false);
        proof {
            lemma_val_bound(dbl.limbs@);
        }
        let addend = if bit == 1 { &wide_a } else { &zero_n };
        let (next, _c2) = add_carry(&dbl, addend, false);
        proof {
            lemma_val_bound(next.limbs@);
        }
        acc = next;
        t = tt;
    }
    proof {
        lemma2_to64();
        vstd::arithmetic::div_mod::lemma_div_basics(b.val() as int);
    }
    acc
}

/// The quotient `a / d`, on the width of `a`.
pub fn div(a: &WideUint, d: &WideUint) -> (r: WideUint)
    requires
        d.val() > 0,
        1 <= a.width() <= 64,
        d.width() <= a.width(),
    ensures
        r.width() == a.width(),
        r.val() == a.val() / d.val(),
{
    let n = a.limbs.len();
    let w = n + 1;
    let dw = widen(d, w);
    let one = from_u128(1, w);
    let zero_w = zero(w);
    let mut q = zero(n);
    let mut rem = zero(w);
    let mut t: usize = 64 * n;
    proof {
        lemma_val_bound(a.limbs@);
        lemma_val_bound(d.limbs@);
        lemma_pow2_pos(t as nat);
        assert(a.val() / pow2(t as nat) == 0) by {
            vstd::arithmetic::div_mod::lemma_basic_div(a.val() as int, pow2(t as nat) as int);
        }
        lemma_pow2_adds(64 * (n as nat), 64);
        assert(64 * (n as nat) + 64 == 64 * (w as nat));
        lemma_pow2_adds(64 * d.width(), (64 * (n as nat) - 64 * d.width()) as nat);
        assert(cap(d.width()) <= cap(n as nat)) by (nonlinear_arith)
            requires cap(n as nat) == cap(d.width()) * pow2((64 * (n as nat) - 64 * d.width()) as nat),
                pow2((64 * (n as nat) - 64 * d.width()) as nat) > 0;
        lemma_limb_base();
    }
    while t > 0
        invariant
            n == a.limbs@.len(),
            w == n + 1,
            t <= 64 * n,
            dw.width() == w,
            dw.val() == d.val(),
            zero_w.width() == w,
            zero_w.val() == 0,
            one.width() == w,
            one.val() == 1,
            q.width() == n,
            rem.width() == w,
            d.val() > 0,
            a.val() / pow2(t as nat) == q.val() * d.val() + rem.val(),
            rem.val() < d.val(),
            d.val() < cap(n as nat),
            a.val() < cap(n as nat),
            cap(w as nat) == cap(n as nat) * limb_base(),
            limb_base() == 0x1_0000_0000_0000_0000,
        decreases t,
    {
        let tt = t - 1;
        let limb = a.limbs[tt / 64];
        let sh = (tt % 64) as u64;
        let bit = (limb >> sh) & 1;
        let ghost top = a.val() / pow2(t as nat);
        let ghost top2 = a.val() / pow2(tt as nat);
        proof {
            lemma_u64_shr_is_div(limb, sh);
            let y = limb >> sh;
            assert(y & 1 == y % 2) by (bit_vector);
            lemma_bit_of_limb(a.limbs@, tt as nat);
            lemma_shift_step(a.val(), t as nat);
            lemma_pow2_pos(tt as nat);
            assert(top2 <= a.val()) by {
                vstd::arithmetic::div_mod::lemma_div_is_ordered_by_denominator(
                    a.val() as int, 1, pow2(tt as nat) as int);
                vstd::arithmetic::div_mod::lemma_div_basics(a.val() as int);
            }
            assert(2 * rem.val() + 1 < cap(w as nat)) by (nonlinear_arith)
                requires rem.val() < d.val(), d.val() < cap(n as nat),
                    cap(w as nat) == cap(n as nat) * limb_base(), limb_base() == 0x1_0000_0000_0000_0000;
        }
        let (r2, _c1) = add_carry(&rem, &rem, false);
        proof { lemma_val_bound(r2.limbs@); }
        let (r3, _c2) = if bit == 1 {
            add_carry(&r2, &one, false)
        } else {
            add_carry(&r2, &zero_w, false)
        };
        proof { lemma_val_bound(r3.limbs@); }
        let (r4, borrow) = sub_borrow(&r3, &dw);
        let ghost k: nat = if borrow { 0 } else { 1 };
        let ghost nr: nat = if borrow { r3.val() } else { r4.val() };
        proof {
            assert(r3.val() == 2 * rem.val() + bit);
            assert(top2 == (2 * q.val() + k) * d.val() + nr) by (nonlinear_arith)
                requires top == q.val() * d.val() + rem.val(), top2 == 2 * top + bit,
                    r3.val() == 2 * rem.val() + bit,
                    borrow ==> nr == r3.val() && k == 0,
                    !borrow ==> nr == r3.val() - d.val() && k == 1;
            assert(2 * q.val() + k <= (2 * q.val() + k) * d.val()) by (nonlinear_arith)
                requires d.val() >= 1;
            assert(2 * q.val() + k < cap(n as nat));
        }
        let (q2, _c3) = add_carry(&q, &q, borrow == false);
        proof {
            lemma_val_bound(q2.limbs@);
            assert(q2.val() == 2 * q.val() + k);
        }
        if borrow {
            rem = r3;
        } else {
            rem = r4;
        }
        q = q2;
        t = tt;
    }
    proof {
        lemma2_to64();
        vstd::arithmetic::div_mod::lemma_div_basics(a.val() as int);
        lemma_fundamental_div_mod_converse(a.val() as int, d.val() as int, q.val() as int, rem.val() as int);
    }
    q
}

} // verus!
