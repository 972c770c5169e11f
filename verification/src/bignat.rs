//! Natural numbers of any size, as little-endian 32-bit limbs, with the few operations the
//! exact CHSH test needs: multiplication by a 64-bit number, addition and comparison.
use vstd::prelude::*;

verus! {

/// The base of a limb.
pub open spec fn base() -> int {
    0x1_0000_0000
}

/// `base()` raised to `n`.
pub open spec fn base_pow(n: nat) -> int
    decreases n,
{
    if n == 0 {
        1
    } else {
        base() * base_pow((n - 1) as nat)
    }
}

/// Limb `j` of `s`, or 0 past its end.
pub open spec fn limb(s: Seq<u32>, j: int) -> int {
    if 0 <= j < s.len() {
        s[j] as int
    } else {
        0
    }
}

/// The value of the first `i` limbs of `s` (limbs past the end count as 0).
pub open spec fn low_value(s: Seq<u32>, i: nat) -> int
    decreases i,
{
    if i == 0 {
        0
    } else {
        low_value(s, (i - 1) as nat) + limb(s, i - 1) * base_pow((i - 1) as nat)
    }
}

/// The number that the limbs stand for.
pub open spec fn value(s: Seq<u32>) -> int {
    low_value(s, s.len())
}

proof fn lemma_base_pow_pos(n: nat)
    ensures
        base_pow(n) >= 1,
    decreases n,
{
    if n > 0 {
        lemma_base_pow_pos((n - 1) as nat);
    }
}

proof fn lemma_low_value_bound(s: Seq<u32>, i: nat)
    ensures
        0 <= low_value(s, i) < base_pow(i),
    decreases i,
{
    if i > 0 {
        lemma_low_value_bound(s, (i - 1) as nat);
        lemma_base_pow_pos((i - 1) as nat);
        let x = base_pow((i - 1) as nat);
        let l = limb(s, i - 1);
        let lo = low_value(s, (i - 1) as nat);
        assert(0 <= l < base());
        assert(0 <= lo + l * x < base() * x) by (nonlinear_arith)
            requires
                0 <= lo < x,
                0 <= l < 0x1_0000_0000,
                base() == 0x1_0000_0000,
                x >= 1;
    }
}

/// Limbs past the end add nothing.
proof fn lemma_low_value_past_end(s: Seq<u32>, i: nat)
    requires
        i >= s.len(),
    ensures
        low_value(s, i) == value(s),
    decreases i,
{
    if i > s.len() {
        lemma_low_value_past_end(s, (i - 1) as nat);
    }
}

/// The value of the first `i` limbs depends on those limbs alone.
proof fn lemma_low_value_same(s: Seq<u32>, t: Seq<u32>, i: nat)
    requires
        forall|j: int| 0 <= j < i ==> limb(s, j) == limb(t, j),
    ensures
        low_value(s, i) == low_value(t, i),
    decreases i,
{
    if i > 0 {
        lemma_low_value_same(s, t, (i - 1) as nat);
    }
}

/// Appending a limb at position `i` adds it times `base_pow(i)`.
proof fn lemma_push_value(s: Seq<u32>, d: u32)
    ensures
        value(s.push(d)) == value(s) + d * base_pow(s.len()),
{
    lemma_low_value_same(s, s.push(d), s.len());
}

proof fn lemma_step(lo: int, x: int, t: int, d: int, c: int)
    requires
        t == d + base() * c,
    ensures
        lo + d * x + c * (base() * x) == lo + t * x,
{
    assert(d * x + c * (base() * x) == t * x) by (nonlinear_arith)
        requires
            t == d + base() * c;
}

/// The number `x` as limbs.
pub fn from_u128(x: u128) -> (r: Vec<u32>)
    ensures
        value(r@) == x,
        r@.len() == 4,
{
    let mut r: Vec<u32> = Vec::new();
    let mut rest: u128 = x;
    let mut i: usize = 0;
    while i < 4
        invariant
            i <= 4,
            r@.len() == i,
            value(r@) + rest * base_pow(i as nat) == x,
            rest < 0x1_0000_0000_0000_0000_0000_0000_0000_0000,
        decreases 4 - i,
    {
        let d = (rest % 0x1_0000_0000) as u32;
        let c = rest / 0x1_0000_0000;
        proof {
            lemma_push_value(r@, d);
            lemma_step(value(r@), base_pow(i as nat), rest as int, d as int, c as int);
        }
        r.push(d);
        rest = c;
        i = i + 1;
    }
    proof {
        lemma_low_value_bound(r@, r@.len());
        assert(base_pow(4) == 0x1_0000_0000_0000_0000_0000_0000_0000_0000) by {
            reveal_with_fuel(base_pow, 5);
        }
        assert(rest == 0) by (nonlinear_arith)
            requires
                value(r@) + rest * 0x1_0000_0000_0000_0000_0000_0000_0000_0000 == x,
                0 <= value(r@),
                0 <= rest,
                x < 0x1_0000_0000_0000_0000_0000_0000_0000_0000;
    }
    r
}

/// `a` times `m`.
pub fn mul_small(a: &Vec<u32>, m: u64) -> (r: Vec<u32>)
    requires
        a@.len() < usize::MAX - 2,
    ensures
        value(r@) == value(a@) * m,
        r@.len() == a@.len() + 2,
{
    let mut r: Vec<u32> = Vec::new();
    let mut carry: u64 = 0;
    let mut i: usize = 0;
    while i < a.len()
        invariant
            i <= a@.len(),
            r@.len() == i,
            value(r@) + carry * base_pow(i as nat) == low_value(a@, i as nat) * m,
        decreases a@.len() - i,
    {
        let ai: u128 = a[i] as u128;
        let mm: u128 = m as u128;
        proof {
            assert(ai * mm + carry <= 0xffff_ffff_ffff_ffff_ffff_ffff) by (nonlinear_arith)
                requires
                    ai <= 0xffff_ffff,
                    mm <= 0xffff_ffff_ffff_ffff,
                    carry <= 0xffff_ffff_ffff_ffff;
        }
        let t: u128 = ai * mm + carry as u128;
        let d = (t % 0x1_0000_0000) as u32;
        let c = (t / 0x1_0000_0000) as u64;
        proof {
            let x = base_pow(i as nat);
            lemma_push_value(r@, d);
            lemma_step(value(r@), x, t as int, d as int, c as int);
            assert(limb(a@, i as int) == a@[i as int]);
            assert(low_value(a@, (i + 1) as nat) == low_value(a@, i as nat) + a@[i as int] * x);
            assert((low_value(a@, i as nat) + a@[i as int] * x) * m == low_value(a@, i as nat) * m
                + (a@[i as int] * m) * x) by (nonlinear_arith);
            assert(carry * x + (a@[i as int] * m) * x == (a@[i as int] * m + carry) * x) by (nonlinear_arith);
        }
        r.push(d);
        carry = c;
        i = i + 1;
    }
    let lo = (carry % 0x1_0000_0000) as u32;
    let hi = (carry / 0x1_0000_0000) as u32;
    proof {
        let n = a@.len();
        let x = base_pow(n);
        lemma_push_value(r@, lo);
        lemma_push_value(r@.push(lo), hi);
        assert(base_pow(n + 1) == base() * x);
        assert(lo * x + hi * (base() * x) == carry * x) by (nonlinear_arith)
            requires
                carry == lo + base() * hi;
        assert(low_value(a@, i as nat) == value(a@));
    }
    r.push(lo);
    r.push(hi);
    r
}

/// `a` plus `b`.
pub fn plus(a: &Vec<u32>, b: &Vec<u32>) -> (r: Vec<u32>)
    requires
        a@.len() < usize::MAX - 1,
        b@.len() < usize::MAX - 1,
    ensures
        value(r@) == value(a@) + value(b@),
        r@.len() == (if a@.len() >= b@.len() { a@.len() } else { b@.len() }) + 1,
{
    let n = if a.len() >= b.len() {
        a.len()
    } else {
        b.len()
    };
    let mut r: Vec<u32> = Vec::new();
    let mut carry: u64 = 0;
    let mut i: usize = 0;
    while i < n
        invariant
            i <= n,
            n == (if a@.len() >= b@.len() { a@.len() } else { b@.len() }),
            r@.len() == i,
            carry <= 1,
            value(r@) + carry * base_pow(i as nat) == low_value(a@, i as nat) + low_value(b@, i as nat),
        decreases n - i,
    {
        let ai: u64 = if i < a.len() {
            a[i] as u64
        } else {
            0
        };
        let bi: u64 = if i < b.len() {
            b[i] as u64
        } else {
            0
        };
        let t: u64 = ai + bi + carry;
        let d = (t % 0x1_0000_0000) as u32;
        let c = t / 0x1_0000_0000;
        proof {
            let x = base_pow(i as nat);
            lemma_push_value(r@, d);
            lemma_step(value(r@), x, t as int, d as int, c as int);
            assert(limb(a@, i as int) == ai);
            assert(limb(b@, i as int) == bi);
            assert(ai * x + bi * x + carry * x == t * x) by (nonlinear_arith)
                requires
                    t == ai + bi + carry;
        }
        r.push(d);
        carry = c;
        i = i + 1;
    }
    proof {
        lemma_push_value(r@, carry as u32);
        lemma_low_value_past_end(a@, n as nat);
        lemma_low_value_past_end(b@, n as nat);
    }
    r.push(carry as u32);
    r
}

/// Whether `a` is less than `b`.
pub fn less(a: &Vec<u32>, b: &Vec<u32>) -> (r: bool)
    ensures
        r == (value(a@) < value(b@)),
{
    let n = if a.len() >= b.len() {
        a.len()
    } else {
        b.len()
    };
    let mut borrow: i64 = 0;
    let mut i: usize = 0;
    let ghost mut diff: int = 0;
    while i < n
        invariant
            i <= n,
            n == (if a@.len() >= b@.len() { a@.len() } else { b@.len() }),
            0 <= borrow <= 1,
            0 <= diff < base_pow(i as nat),
            low_value(a@, i as nat) - low_value(b@, i as nat) == diff - borrow * base_pow(i as nat),
        decreases n - i,
    {
        let ai: i64 = if i < a.len() {
            a[i] as i64
        } else {
            0
        };
        let bi: i64 = if i < b.len() {
            b[i] as i64
        } else {
            0
        };
        let t: i64 = ai - bi - borrow;
        let (d, nb): (i64, i64) = if t < 0 {
            (t + 0x1_0000_0000, 1)
        } else {
            (t, 0)
        };
        proof {
            let x = base_pow(i as nat);
            assert(limb(a@, i as int) == ai);
            assert(limb(b@, i as int) == bi);
            assert(base_pow((i + 1) as nat) == base() * x);
            assert(low_value(a@, (i + 1) as nat) == low_value(a@, i as nat) + ai * x);
            assert(low_value(b@, (i + 1) as nat) == low_value(b@, i as nat) + bi * x);
            assert(0 <= d < base());
            assert(d - nb * base() == ai - bi - borrow);
            assert(diff + d * x < base() * x) by (nonlinear_arith)
                requires
                    0 <= diff < x,
                    0 <= d < 0x1_0000_0000,
                    base() == 0x1_0000_0000;
            assert(0 <= d * x) by (nonlinear_arith)
                requires
                    0 <= d,
                    0 <= x;
            assert((ai - bi) * x == d * x - nb * (base() * x) + borrow * x) by (nonlinear_arith)
                requires
                    d - nb * base() == ai - bi - borrow;
            assert((ai - bi) * x == ai * x - bi * x) by (nonlinear_arith);
            diff = diff + d * x;
            assert(low_value(a@, (i + 1) as nat) - low_value(b@, (i + 1) as nat) == diff - nb * base_pow(
                (i + 1) as nat,
            ));
        }
        borrow = nb;
        i = i + 1;
    }
    proof {
        lemma_low_value_past_end(a@, n as nat);
        lemma_low_value_past_end(b@, n as nat);
        lemma_base_pow_pos(n as nat);
    }
    borrow == 1
}

} // verus!
