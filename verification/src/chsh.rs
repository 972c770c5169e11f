//! Grouping of mismatched-basis pairs for the CHSH test, and the test itself.
use vstd::prelude::*;

use crate::basis::Basis;
use crate::error::{ChshStatistic, SiftingError};
use crate::bignat::{from_u128, less, mul_small, plus, value};
use crate::pair::{mapped_pair, AcceptedPair};

verus! {

/// The CHSH group of a pair by its two bases: (0°, 22.5°), (0°, -22.5°), (45°, 22.5°),
/// (45°, -22.5°); other combinations belong to none.
pub open spec fn pair_group(p: AcceptedPair) -> Option<int> {
    match (p.src_measurement.basis, p.dst_measurement.basis) {
        (Basis::Deg0, Basis::Deg22_5) => Some(0),
        (Basis::Deg0, Basis::DegNeg22_5) => Some(1),
        (Basis::Deg45, Basis::Deg22_5) => Some(2),
        (Basis::Deg45, Basis::DegNeg22_5) => Some(3),
        _ => None,
    }
}

/// The pairs of group `k`, mapped for the correlation, in their order.
pub open spec fn group_members(ps: Seq<AcceptedPair>, k: int) -> Seq<AcceptedPair>
    decreases ps.len(),
{
    if ps.len() == 0 {
        Seq::<AcceptedPair>::empty()
    } else {
        let rest = group_members(ps.drop_last(), k);
        if pair_group(ps.last()) == Some(k) {
            rest.push(mapped_pair(ps.last()))
        } else {
            rest
        }
    }
}

/// The first pair whose basis combination belongs to no group.
pub open spec fn first_unknown(ps: Seq<AcceptedPair>) -> Option<AcceptedPair>
    decreases ps.len(),
{
    if ps.len() == 0 {
        None
    } else {
        match first_unknown(ps.drop_last()) {
            Some(p) => Some(p),
            None => if pair_group(ps.last()) is None {
                Some(ps.last())
            } else {
                None
            },
        }
    }
}

/// The sum over the pairs of the product of the two values.
pub open spec fn product_sum(ps: Seq<AcceptedPair>) -> int
    decreases ps.len(),
{
    if ps.len() == 0 {
        0
    } else {
        product_sum(ps.drop_last()) + ps.last().src_measurement.value as int
            * ps.last().dst_measurement.value as int
    }
}

/// The CHSH statistic of a list of pairs, once grouped.
pub open spec fn statistic_of(ps: Seq<AcceptedPair>) -> ChshStatistic {
    ChshStatistic {
        sum_a0b0: product_sum(group_members(ps, 0)) as i128,
        count_a0b0: group_members(ps, 0).len() as i128,
        sum_a0b1: product_sum(group_members(ps, 1)) as i128,
        count_a0b1: group_members(ps, 1).len() as i128,
        sum_a1b0: product_sum(group_members(ps, 2)) as i128,
        count_a1b0: group_members(ps, 2).len() as i128,
        sum_a1b1: product_sum(group_members(ps, 3)) as i128,
        count_a1b1: group_members(ps, 3).len() as i128,
    }
}

/// The CHSH value |E(a0b0) + E(a0b1) + E(a1b0) - E(a1b1)|, each correlation E being the
/// group's sum divided by its count, multiplied through by the four counts: its numerator.
pub open spec fn chsh_numerator(st: ChshStatistic) -> int {
    st.sum_a0b0 * st.count_a0b1 * st.count_a1b0 * st.count_a1b1 + st.sum_a0b1 * st.count_a0b0
        * st.count_a1b0 * st.count_a1b1 + st.sum_a1b0 * st.count_a0b0 * st.count_a0b1
        * st.count_a1b1 - st.sum_a1b1 * st.count_a0b0 * st.count_a0b1 * st.count_a1b0
}

/// The product of the four counts: the common denominator of the correlations.
pub open spec fn chsh_denominator(st: ChshStatistic) -> int {
    st.count_a0b0 * st.count_a0b1 * st.count_a1b0 * st.count_a1b1
}

/// Every group has a pair and the CHSH value lies below the threshold 2: the correlations
/// are too weak for entangled pairs, so an eavesdropper is assumed. With an empty group the
/// value is undefined and the test does not fire.
pub open spec fn mallory_suspected(st: ChshStatistic) -> bool {
    &&& st.count_a0b0 > 0
    &&& st.count_a0b1 > 0
    &&& st.count_a1b0 > 0
    &&& st.count_a1b1 > 0
    &&& -2 * chsh_denominator(st) < chsh_numerator(st) < 2 * chsh_denominator(st)
}

/// One group of pairs of the CHSH test.
#[derive(Debug, Clone)]
pub struct CHSHGroup {
    pairs: Vec<AcceptedPair>,
}

/// The four groups of the CHSH test.
#[derive(Debug, Clone)]
pub struct CHSH {
    a0b0: CHSHGroup,
    a0b1: CHSHGroup,
    a1b0: CHSHGroup,
    a1b1: CHSHGroup,
}

proof fn lemma_product_sum_bound(ps: Seq<AcceptedPair>)
    ensures
        -(ps.len() * 0x4000_0000) <= product_sum(ps) <= ps.len() * 0x4000_0000,
    decreases ps.len(),
{
    if ps.len() > 0 {
        lemma_product_sum_bound(ps.drop_last());
        let a = ps.last().src_measurement.value as int;
        let b = ps.last().dst_measurement.value as int;
        assert(-0x4000_0000 <= a * b <= 0x4000_0000) by (nonlinear_arith)
            requires
                -0x8000 <= a <= 0x7fff,
                -0x8000 <= b <= 0x7fff;
    }
}

impl CHSHGroup {
    /// The pairs of the group, in the order they came.
    pub closed spec fn members(&self) -> Seq<AcceptedPair> {
        self.pairs@
    }

    /// An empty group.
    pub fn new() -> (g: CHSHGroup)
        ensures
            g.members() == Seq::<AcceptedPair>::empty(),
    {
        CHSHGroup { pairs: Vec::new() }
    }

    /// The pairs of the group.
    pub fn pairs(&self) -> (r: &Vec<AcceptedPair>)
        ensures
            r@ == self.members(),
    {
        &self.pairs
    }

    /// Adds a pair to the group.
    pub fn push_pair(&mut self, pair: AcceptedPair)
        ensures
            final(self).members() == old(self).members().push(pair),
    {
        self.pairs.push(pair);
    }

    /// The sum over the group of the products of the two values: the numerator of the
    /// group's correlation, whose denominator is the number of pairs.
    pub fn correlation_sum(&self) -> (r: i128)
        ensures
            r == product_sum(self.members()),
    {
        let mut acc: i128 = 0;
        let mut i: usize = 0;
        let n = self.pairs.len();
        while i < n
            invariant
                n == self.pairs@.len(),
                i <= n,
                acc == product_sum(self.pairs@.take(i as int)),
            decreases self.pairs@.len() - i,
        {
            proof {
                lemma_product_sum_bound(self.pairs@.take(i as int));
                assert(self.pairs@.take(i as int + 1).drop_last() =~= self.pairs@.take(i as int));
            }
            let p = self.pairs[i];
            let a = p.src_measurement.value as i128;
            let b = p.dst_measurement.value as i128;
            proof {
                assert(-0x4000_0000 <= a * b <= 0x4000_0000) by (nonlinear_arith)
                    requires
                        -0x8000 <= a <= 0x7fff,
                        -0x8000 <= b <= 0x7fff;
                assert(i * 0x4000_0000 <= 0xffff_ffff_ffff_ffff * 0x4000_0000) by (nonlinear_arith)
                    requires
                        i <= 0xffff_ffff_ffff_ffff;
            }
            acc = acc + a * b;
            i = i + 1;
        }
        proof {
            assert(self.pairs@.take(self.pairs@.len() as int) =~= self.pairs@);
        }
        acc
    }

    /// The number of pairs in the group.
    pub fn len(&self) -> (r: usize)
        ensures
            r == self.members().len(),
    {
        self.pairs.len()
    }
}

impl CHSH {
    /// The members of group `k` (0: a0b0, 1: a0b1, 2: a1b0, 3: a1b1).
    pub closed spec fn group(&self, k: int) -> Seq<AcceptedPair> {
        if k == 0 {
            self.a0b0.members()
        } else if k == 1 {
            self.a0b1.members()
        } else if k == 2 {
            self.a1b0.members()
        } else {
            self.a1b1.members()
        }
    }

    /// Four empty groups.
    pub fn new() -> (c: CHSH)
        ensures
            forall|k: int| 0 <= k < 4 ==> #[trigger] c.group(k) == Seq::<AcceptedPair>::empty(),
    {
        CHSH {
            a0b0: CHSHGroup::new(),
            a0b1: CHSHGroup::new(),
            a1b0: CHSHGroup::new(),
            a1b1: CHSHGroup::new(),
        }
    }

    /// The groups in the order a0b0, a0b1, a1b0, a1b1.
    pub fn groups(&self) -> (r: (&CHSHGroup, &CHSHGroup, &CHSHGroup, &CHSHGroup))
        ensures
            r.0.members() == self.group(0),
            r.1.members() == self.group(1),
            r.2.members() == self.group(2),
            r.3.members() == self.group(3),
    {
        (&self.a0b0, &self.a0b1, &self.a1b0, &self.a1b1)
    }

    /// Puts the pair into the group of its basis combination.
    pub fn push_to_group(&mut self, pair: AcceptedPair) -> (r: Result<(), SiftingError>)
        ensures
            match pair_group(pair) {
                Some(k) => r is Ok && final(self).group(k) == old(self).group(k).push(pair)
                    && forall|j: int| 0 <= j < 4 && j != k ==> #[trigger] final(self).group(j) == old(self).group(j),
                None => r matches Err(SiftingError::NotKnownCombination(a, b))
                    && a == pair.src_measurement.basis && b == pair.dst_measurement.basis
                    && forall|j: int| 0 <= j < 4 ==> #[trigger] final(self).group(j) == old(self).group(j),
            },
    {
        match (pair.src_measurement.basis, pair.dst_measurement.basis) {
            (Basis::Deg0, Basis::Deg22_5) => {
                self.a0b0.push_pair(pair);
                Ok(())
            },
            (Basis::Deg0, Basis::DegNeg22_5) => {
                self.a0b1.push_pair(pair);
                Ok(())
            },
            (Basis::Deg45, Basis::Deg22_5) => {
                self.a1b0.push_pair(pair);
                Ok(())
            },
            (Basis::Deg45, Basis::DegNeg22_5) => {
                self.a1b1.push_pair(pair);
                Ok(())
            },
            (_, _) => Err(
                SiftingError::NotKnownCombination(
                    pair.src_measurement.basis,
                    pair.dst_measurement.basis,
                ),
            ),
        }
    }

    /// Sorts the pairs, with values mapped, into the four groups; the first pair of an
    /// unknown basis combination is refused.
    pub fn from_pairs(pairs: Vec<AcceptedPair>) -> (r: Result<CHSH, SiftingError>)
        ensures
            match first_unknown(pairs@) {
                Some(p) => r matches Err(SiftingError::NotKnownCombination(a, b))
                    && a == p.src_measurement.basis && b == p.dst_measurement.basis,
                None => r matches Ok(c) && forall|k: int|
                    0 <= k < 4 ==> #[trigger] c.group(k) == group_members(pairs@, k),
            },
    {
        let mut chsh = CHSH::new();
        let mut i: usize = 0;
        while i < pairs.len()
            invariant
                i <= pairs@.len(),
                first_unknown(pairs@.take(i as int)) is None,
                forall|k: int| 0 <= k < 4 ==> #[trigger] chsh.group(k) == group_members(pairs@.take(i as int), k),
            decreases pairs@.len() - i,
        {
            let ghost prefix = pairs@.take(i as int);
            let ghost next = pairs@.take(i as int + 1);
            proof {
                assert(next.drop_last() =~= prefix);
                assert(next.last() == pairs@[i as int]);
            }
            let mut pair = pairs[i];
            pair.map_values();
            let pushed = chsh.push_to_group(pair);
            if pushed.is_err() {
                proof {
                    assert(pair_group(pairs@[i as int]) == pair_group(pair));
                    assert(first_unknown(next) == Some(pairs@[i as int]));
                    lemma_first_unknown_extends(pairs@, i as int + 1);
                }
                return match pushed {
                    Ok(_) => Ok(chsh),
                    Err(e) => Err(e),
                };
            }
            proof {
                assert(pair_group(pairs@[i as int]) == pair_group(pair));
                assert forall|k: int| 0 <= k < 4 implies #[trigger] chsh.group(k) == group_members(next, k) by {
                    assert(group_members(next, k) == if pair_group(next.last()) == Some(k) {
                        group_members(prefix, k).push(mapped_pair(next.last()))
                    } else {
                        group_members(prefix, k)
                    });
                }
            }
            i = i + 1;
        }
        proof {
            assert(pairs@.take(pairs@.len() as int) =~= pairs@);
        }
        Ok(chsh)
    }

    /// The exact CHSH statistic of the groups.
    pub fn chsh_statistic(&self) -> (r: ChshStatistic)
        ensures
            r == (ChshStatistic {
                sum_a0b0: product_sum(self.group(0)) as i128,
                count_a0b0: self.group(0).len() as i128,
                sum_a0b1: product_sum(self.group(1)) as i128,
                count_a0b1: self.group(1).len() as i128,
                sum_a1b0: product_sum(self.group(2)) as i128,
                count_a1b0: self.group(2).len() as i128,
                sum_a1b1: product_sum(self.group(3)) as i128,
                count_a1b1: self.group(3).len() as i128,
            }),
            forall|k: int| 0 <= k < 4 ==> #[trigger] self.group(k).len() <= usize::MAX,
    {
        ChshStatistic {
            sum_a0b0: self.a0b0.correlation_sum(),
            count_a0b0: self.a0b0.len() as i128,
            sum_a0b1: self.a0b1.correlation_sum(),
            count_a0b1: self.a0b1.len() as i128,
            sum_a1b0: self.a1b0.correlation_sum(),
            count_a1b0: self.a1b0.len() as i128,
            sum_a1b1: self.a1b1.correlation_sum(),
            count_a1b1: self.a1b1.len() as i128,
        }
    }
}

proof fn lemma_first_unknown_extends(ps: Seq<AcceptedPair>, i: int)
    requires
        0 <= i <= ps.len(),
        first_unknown(ps.take(i)) is Some,
    ensures
        first_unknown(ps) == first_unknown(ps.take(i)),
    decreases ps.len() - i,
{
    if i < ps.len() {
        assert(ps.take(i + 1).drop_last() =~= ps.take(i));
        lemma_first_unknown_extends(ps, i + 1);
    } else {
        assert(ps.take(i) =~= ps);
    }
}

/// The magnitude of an `i128`.
fn magnitude(s: i128) -> (r: u128)
    ensures
        r == (if s >= 0 { s as int } else { -s }),
{
    if s >= 0 {
        s as u128
    } else {
        (-(s + 1)) as u128 + 1
    }
}

/// `mag * a * b * c` as limbs.
fn term(mag: u128, a: u64, b: u64, c: u64) -> (r: Vec<u32>)
    ensures
        value(r@) == mag * a * b * c,
        r@.len() == 10,
{
    let m = from_u128(mag);
    let x = mul_small(&m, a);
    let y = mul_small(&x, b);
    mul_small(&y, c)
}

/// A signed term is its magnitude's term, negated when the sign is negative.
proof fn lemma_signed_term(s: int, mag: int, a: int, b: int, c: int)
    requires
        mag == (if s >= 0 { s } else { -s }),
    ensures
        s >= 0 ==> s * a * b * c == mag * a * b * c,
        s < 0 ==> s * a * b * c == -(mag * a * b * c),
        s == 0 ==> s * a * b * c == 0,
{
    if s == 0 {
        assert(s * a * b * c == 0) by (nonlinear_arith)
            requires
                s == 0;
    }
    if s < 0 {
        assert(s * a * b * c == -(mag * a * b * c)) by (nonlinear_arith)
            requires
                mag == -s;
    }
}

/// Whether the statistic makes an eavesdropper suspected, computed exactly on numbers of
/// any size.
pub fn chsh_below_threshold(st: &ChshStatistic) -> (r: bool)
    requires
        0 <= st.count_a0b0 <= u64::MAX,
        0 <= st.count_a0b1 <= u64::MAX,
        0 <= st.count_a1b0 <= u64::MAX,
        0 <= st.count_a1b1 <= u64::MAX,
    ensures
        r == mallory_suspected(*st),
{
    if st.count_a0b0 == 0 || st.count_a0b1 == 0 || st.count_a1b0 == 0 || st.count_a1b1 == 0 {
        return false;
    }
    let n0 = st.count_a0b0 as u64;
    let n1 = st.count_a0b1 as u64;
    let n2 = st.count_a1b0 as u64;
    let n3 = st.count_a1b1 as u64;
    let den3 = term(1, n0, n1, n2);
    let den = mul_small(&den3, n3);
    let twice = mul_small(&den, 2);
    let m0 = magnitude(st.sum_a0b0);
    let m1 = magnitude(st.sum_a0b1);
    let m2 = magnitude(st.sum_a1b0);
    let m3 = magnitude(st.sum_a1b1);
    let t0 = term(m0, n1, n2, n3);
    let t1 = term(m1, n0, n2, n3);
    let t2 = term(m2, n0, n1, n3);
    let t3 = term(m3, n0, n1, n2);
    let ghost p0 = st.sum_a0b0 * n1 * n2 * n3;
    let ghost p1 = st.sum_a0b1 * n0 * n2 * n3;
    let ghost p2 = st.sum_a1b0 * n0 * n1 * n3;
    let ghost p3 = st.sum_a1b1 * n0 * n1 * n2;
    proof {
        lemma_signed_term(st.sum_a0b0 as int, m0 as int, n1 as int, n2 as int, n3 as int);
        lemma_signed_term(st.sum_a0b1 as int, m1 as int, n0 as int, n2 as int, n3 as int);
        lemma_signed_term(st.sum_a1b0 as int, m2 as int, n0 as int, n1 as int, n3 as int);
        lemma_signed_term(st.sum_a1b1 as int, m3 as int, n0 as int, n1 as int, n2 as int);
        assert(value(den@) == chsh_denominator(*st)) by (nonlinear_arith)
            requires
                value(den@) == 1 * n0 * n1 * n2 * n3,
                n0 == st.count_a0b0,
                n1 == st.count_a0b1,
                n2 == st.count_a1b0,
                n3 == st.count_a1b1,
        ;
        assert(chsh_numerator(*st) == p0 + p1 + p2 - p3);
    }
    let mut pos: Vec<u32> = Vec::new();
    let mut neg: Vec<u32> = Vec::new();
    if st.sum_a0b0 >= 0 {
        pos = plus(&pos, &t0);
    } else {
        neg = plus(&neg, &t0);
    }
    assert(value(pos@) - value(neg@) == p0);
    if st.sum_a0b1 >= 0 {
        pos = plus(&pos, &t1);
    } else {
        neg = plus(&neg, &t1);
    }
    assert(value(pos@) - value(neg@) == p0 + p1);
    if st.sum_a1b0 >= 0 {
        pos = plus(&pos, &t2);
    } else {
        neg = plus(&neg, &t2);
    }
    assert(value(pos@) - value(neg@) == p0 + p1 + p2);
    if st.sum_a1b1 <= 0 {
        pos = plus(&pos, &t3);
    } else {
        neg = plus(&neg, &t3);
    }
    assert(value(pos@) - value(neg@) == chsh_numerator(*st));
    let upper = plus(&pos, &twice);
    let lower = plus(&neg, &twice);
    less(&neg, &upper) && less(&pos, &lower)
}

/// What the CHSH test answers on the pairs measured in mismatched bases: the first pair of
/// an unknown basis combination is refused; otherwise an eavesdropper is reported when the
/// statistic falls below the threshold.
pub open spec fn chsh_result(ps: Seq<AcceptedPair>, process_id: i32) -> Result<(), SiftingError> {
    match first_unknown(ps) {
        Some(p) => Err(SiftingError::NotKnownCombination(p.src_measurement.basis, p.dst_measurement.basis)),
        None => if mallory_suspected(statistic_of(ps)) {
            Err(SiftingError::MalloryDetected(statistic_of(ps), process_id))
        } else {
            Ok(())
        },
    }
}

/// The CHSH test on the pairs measured in mismatched bases: refuses an unknown basis
/// combination, and reports an eavesdropper when the CHSH value falls below 2.
pub fn perform_chsh(pairs: Vec<AcceptedPair>, process_id: i32) -> (r: Result<(), SiftingError>)
    ensures
        r == chsh_result(pairs@, process_id),
{
    let ghost ps = pairs@;
    let chsh = match CHSH::from_pairs(pairs) {
        Ok(c) => c,
        Err(e) => {
            return Err(e);
        },
    };
    let st = chsh.chsh_statistic();
    proof {
        assert(st == statistic_of(ps));
    }
    if chsh_below_threshold(&st) {
        return Err(SiftingError::MalloryDetected(st, process_id));
    }
    Ok(())
}

} // verus!
