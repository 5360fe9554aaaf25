//! Natural numbers of any size, as little-endian vectors of 32-bit limbs.

use crate::text::{digit_text, nat_text};
use vstd::prelude::*;

verus! {

pub open spec fn limb_base() -> nat {
    0x1_0000_0000
}

/// The weight of the limb at position `i`.
pub open spec fn place(i: nat) -> nat
    decreases i,
{
    if i == 0 {
        1
    } else {
        limb_base() * place((i - 1) as nat)
    }
}

/// The number that little-endian limbs write.
pub open spec fn nat_of(s: Seq<u32>) -> nat
    decreases s.len(),
{
    if s.len() == 0 {
        0
    } else {
        s[0] as nat + limb_base() * nat_of(s.drop_first())
    }
}

pub proof fn lemma_place_positive(i: nat)
    ensures
        place(i) >= 1,
    decreases i,
{
    if i > 0 {
        lemma_place_positive((i - 1) as nat);
    }
}

/// A limb pushed on top adds its weight.
pub proof fn lemma_push(s: Seq<u32>, x: u32)
    ensures
        nat_of(s.push(x)) == nat_of(s) + x * place(s.len()),
    decreases s.len(),
{
    assert(s.push(x).len() > 0);
    if s.len() == 0 {
        assert(s.push(x).drop_first() =~= Seq::<u32>::empty());
        assert(s.push(x)[0] == x);
        assert(nat_of(Seq::<u32>::empty()) == 0);
        assert(nat_of(s) == 0);
        assert(place(0) == 1);
    } else {
        assert(s.push(x).drop_first() =~= s.drop_first().push(x));
        assert(s.push(x)[0] == s[0]);
        assert(place(s.len() as nat) == limb_base() * place((s.len() - 1) as nat));
        lemma_push(s.drop_first(), x);
        let b = limb_base() as int;
        let r = nat_of(s.drop_first()) as int;
        let p = place((s.len() - 1) as nat) as int;
        assert(b * (r + x * p) == b * r + x * (b * p)) by (nonlinear_arith);
    }
}

proof fn lemma_zero(s: Seq<u32>)
    ensures
        nat_of(s) == 0 <==> forall|i: int| 0 <= i < s.len() ==> s[i] == 0,
    decreases s.len(),
{
    if s.len() > 0 {
        lemma_zero(s.drop_first());
        if nat_of(s) == 0 {
            assert(s[0] == 0 && nat_of(s.drop_first()) == 0);
            assert forall|i: int| 0 <= i < s.len() implies s[i] == 0 by {
                if i > 0 {
                    assert(s[i] == s.drop_first()[i - 1]);
                }
            }
        }
        if forall|i: int| 0 <= i < s.len() ==> s[i] == 0 {
            assert forall|i: int| 0 <= i < s.drop_first().len() implies s.drop_first()[i] == 0 by {
                assert(s.drop_first()[i] == s[i + 1]);
            }
        }
    }
}

/// `a * k + c`.
pub fn mul_add(a: &Vec<u32>, k: u64, c: u64) -> (r: Vec<u32>)
    ensures
        nat_of(r@) == nat_of(a@) * k + c,
{
    let mut r: Vec<u32> = Vec::new();
    let mut carry: u64 = c;
    let mut i: usize = 0;
    assert(a@.take(0) =~= Seq::<u32>::empty());
    assert(nat_of(Seq::<u32>::empty()) == 0);
    assert(place(0) == 1);
    while i < a.len()
        invariant
            i <= a.len(),
            r@.len() == i,
            nat_of(r@) + carry * place(i as nat) == nat_of(a@.take(i as int)) * k + c,
        decreases a.len() - i,
    {
        let x = a[i];
        assert(x as int * (k as int) <= 0xffff_ffff * 0xffff_ffff_ffff_ffff) by (nonlinear_arith)
            requires
                x <= 0xffff_ffff,
                k <= 0xffff_ffff_ffff_ffff,
        ;
        let t: u128 = x as u128 * k as u128 + carry as u128;
        let low = (t % 0x1_0000_0000) as u32;
        let high = (t / 0x1_0000_0000) as u64;
        proof {
            let p = place(i as nat) as int;
            assert(place((i + 1) as nat) == 0x1_0000_0000 * place(i as nat));
            lemma_push(r@, low);
            lemma_push(a@.take(i as int), x);
            assert(a@.take(i + 1) =~= a@.take(i as int).push(x));
            assert(t == low + 0x1_0000_0000 * high);
            let na = nat_of(a@.take(i as int)) as int;
            let nr = nat_of(r@) as int;
            assert(high * (0x1_0000_0000 * p) + low * p == t * p) by (nonlinear_arith)
                requires
                    t == low + 0x1_0000_0000 * high,
            ;
            assert((na + x * p) * k == na * k + (x * k) * p) by (nonlinear_arith);
            assert(nat_of(a@.take(i + 1)) * k == (na + x * p) * k);
            assert(t * p == (x * k) * p + carry * p) by (nonlinear_arith)
                requires
                    t == x * k + carry,
            ;
        }
        r.push(low);
        carry = high;
        i = i + 1;
    }
    proof {
        lemma_push(r@, (carry % 0x1_0000_0000) as u32);
        lemma_push(r@.push((carry % 0x1_0000_0000) as u32), (carry / 0x1_0000_0000) as u32);
        let p = place(i as nat) as int;
        let lo = carry % 0x1_0000_0000;
        let hi = carry / 0x1_0000_0000;
        assert(lo * p + hi * (0x1_0000_0000 * p) == carry * p) by (nonlinear_arith)
            requires
                carry == lo + 0x1_0000_0000 * hi,
        ;
        assert(a@.take(a.len() as int) =~= a@);
    }
    r.push((carry % 0x1_0000_0000) as u32);
    r.push((carry / 0x1_0000_0000) as u32);
    r
}

/// The number `x`.
pub fn from_u64(x: u64) -> (r: Vec<u32>)
    ensures
        nat_of(r@) == x,
{
    mul_add(&Vec::new(), 0, x)
}

/// `a` with zero limbs on top, up to `n` limbs.
fn padded(a: &Vec<u32>, n: usize) -> (r: Vec<u32>)
    ensures
        nat_of(r@) == nat_of(a@),
        r@.len() == if a@.len() >= n {
            a@.len()
        } else {
            n as nat
        },
        forall|i: int| 0 <= i < a@.len() ==> r@[i] == a@[i],
        forall|i: int| a@.len() <= i < r@.len() ==> r@[i] == 0,
{
    let mut r: Vec<u32> = Vec::new();
    let mut i: usize = 0;
    while i < a.len()
        invariant
            i <= a.len(),
            r@ == a@.take(i as int),
        decreases a.len() - i,
    {
        r.push(a[i]);
        assert(r@ =~= a@.take(i + 1));
        i = i + 1;
    }
    assert(r@ =~= a@);
    while r.len() < n
        invariant
            nat_of(r@) == nat_of(a@),
            r@.len() >= a@.len(),
            r@.len() > a@.len() ==> r@.len() <= n,
            forall|i: int| 0 <= i < a@.len() ==> r@[i] == a@[i],
            forall|i: int| a@.len() <= i < r@.len() ==> r@[i] == 0,
        decreases n - r.len(),
    {
        proof {
            lemma_push(r@, 0);
        }
        r.push(0);
    }
    r
}

/// `a + b`.
pub fn add_naturals(a: &Vec<u32>, b: &Vec<u32>) -> (r: Vec<u32>)
    ensures
        nat_of(r@) == nat_of(a@) + nat_of(b@),
{
    let n = if a.len() > b.len() {
        a.len()
    } else {
        b.len()
    };
    let x = padded(a, n);
    let y = padded(b, n);
    let mut r: Vec<u32> = Vec::new();
    let mut carry: u64 = 0;
    let mut i: usize = 0;
    assert(x@.take(0) =~= Seq::<u32>::empty());
    assert(y@.take(0) =~= Seq::<u32>::empty());
    assert(nat_of(Seq::<u32>::empty()) == 0);
    assert(place(0) == 1);
    while i < x.len()
        invariant
            x@.len() == y@.len(),
            i <= x@.len(),
            r@.len() == i,
            carry <= 1,
            nat_of(r@) + carry * place(i as nat) == nat_of(x@.take(i as int)) + nat_of(
                y@.take(i as int),
            ),
        decreases x.len() - i,
    {
        let t: u64 = x[i] as u64 + y[i] as u64 + carry;
        let low = (t % 0x1_0000_0000) as u32;
        let high = t / 0x1_0000_0000;
        proof {
            let p = place(i as nat) as int;
            assert(place((i + 1) as nat) == 0x1_0000_0000 * place(i as nat));
            lemma_push(r@, low);
            lemma_push(x@.take(i as int), x@[i as int]);
            lemma_push(y@.take(i as int), y@[i as int]);
            assert(x@.take(i + 1) =~= x@.take(i as int).push(x@[i as int]));
            assert(y@.take(i + 1) =~= y@.take(i as int).push(y@[i as int]));
            assert(high * (0x1_0000_0000 * p) + low * p == t * p) by (nonlinear_arith)
                requires
                    t == low + 0x1_0000_0000 * high,
            ;
            assert(t * p == x@[i as int] * p + y@[i as int] * p + carry * p) by (nonlinear_arith)
                requires
                    t == x@[i as int] + y@[i as int] + carry,
            ;
        }
        r.push(low);
        carry = high;
        i = i + 1;
    }
    proof {
        lemma_push(r@, carry as u32);
        assert(x@.take(x.len() as int) =~= x@);
        assert(y@.take(y.len() as int) =~= y@);
    }
    r.push(carry as u32);
    r
}

/// `a / d` and `a % d`.
pub fn div_rem(a: &Vec<u32>, d: u64) -> (r: (Vec<u32>, u64))
    requires
        d > 0,
    ensures
        nat_of(r.0@) == nat_of(a@) / (d as nat),
        r.1 == nat_of(a@) % (d as nat),
{
    let mut q: Vec<u32> = vec![0u32; a.len()];
    let mut rem: u64 = 0;
    let mut i: usize = a.len();
    assert(a@.skip(a.len() as int) =~= Seq::<u32>::empty());
    assert(q@.skip(a.len() as int) =~= Seq::<u32>::empty());
    assert(nat_of(Seq::<u32>::empty()) == 0);
    while i > 0
        invariant
            i <= a@.len(),
            q@.len() == a@.len(),
            rem < d,
            nat_of(a@.skip(i as int)) == nat_of(q@.skip(i as int)) * d + rem,
        decreases i,
    {
        let j = i - 1;
        assert(rem as int * 0x1_0000_0000 + a[j as int] < d as int * 0x1_0000_0000)
            by (nonlinear_arith)
            requires
                rem < d,
                a[j as int] < 0x1_0000_0000,
        ;
        let cur: u128 = rem as u128 * 0x1_0000_0000 + a[j] as u128;
        let qj = cur / d as u128;
        assert(qj < 0x1_0000_0000) by (nonlinear_arith)
            requires
                qj == (cur as int) / (d as int),
                cur < d * 0x1_0000_0000,
                d > 0,
        ;
        let nrem = (cur % d as u128) as u64;
        let ghost old_q = q@;
        q.set(j, qj as u32);
        proof {
            assert(a@.skip(j as int).drop_first() =~= a@.skip(i as int));
            assert(q@.skip(j as int).drop_first() =~= old_q.skip(i as int));
            assert(q@.skip(j as int)[0] == qj);
            let upper = nat_of(old_q.skip(i as int)) as int;
            vstd::arithmetic::div_mod::lemma_fundamental_div_mod(cur as int, d as int);
            assert(cur == qj * d + nrem);
            assert(a[j as int] + 0x1_0000_0000 * (upper * d + rem) == (qj + 0x1_0000_0000 * upper)
                * d + nrem) by (nonlinear_arith)
                requires
                    cur == qj * d + nrem,
                    cur == rem * 0x1_0000_0000 + a[j as int],
            ;
        }
        rem = nrem;
        i = j;
    }
    proof {
        assert(a@.skip(0) =~= a@);
        assert(q@.skip(0) =~= q@);
        let v = nat_of(a@) as int;
        let qq = nat_of(q@) as int;
        vstd::arithmetic::div_mod::lemma_fundamental_div_mod_converse(v, d as int, qq, rem as int);
    }
    (q, rem)
}

/// Whether the number is zero.
pub fn is_zero(a: &Vec<u32>) -> (r: bool)
    ensures
        r == (nat_of(a@) == 0),
{
    proof {
        lemma_zero(a@);
    }
    let mut i: usize = 0;
    while i < a.len()
        invariant
            i <= a.len(),
            forall|k: int| 0 <= k < i ==> a@[k] == 0,
        decreases a.len() - i,
    {
        if a[i] != 0 {
            proof {
                lemma_zero(a@);
                if nat_of(a@) == 0 {
                    assert(a@[i as int] == 0);
                }
            }
            return false;
        }
        i = i + 1;
    }
    true
}

/// Writes the number in decimal.
pub fn to_decimal_text(a: &Vec<u32>) -> (r: String)
    ensures
        r@ == nat_text(nat_of(a@)),
{
    let ghost n = nat_of(a@);
    let (first, d) = div_rem(a, 10);
    let mut out = String::from_str(digit_text(d as u32));
    let mut rest = first;
    while !is_zero(&rest)
        invariant
            nat_of(rest@) <= n / 10,
            nat_of(rest@) > 0 ==> nat_text(n) == nat_text(nat_of(rest@)) + out@,
            nat_of(rest@) == 0 ==> nat_text(n) == out@,
        decreases nat_of(rest@),
    {
        let ghost m = nat_of(rest@);
        let (next, d) = div_rem(&rest, 10);
        let mut text = String::from_str(digit_text(d as u32));
        text.append(out.as_str());
        proof {
            if m >= 10 {
                assert(nat_text(m) == nat_text(m / 10) + seq![crate::text::digit_char(
                    (m % 10) as int,
                )]);
                assert(nat_text(n) == nat_text(m / 10) + text@);
            } else {
                assert(nat_text(m) == seq![crate::text::digit_char(m as int)]);
            }
        }
        out = text;
        rest = next;
    }
    out
}

} // verus!
