//! Key sifting: error correction of the raw key and the bit utilities it needs.
use vstd::prelude::*;

use crate::error::SiftingError;
use vstd::arithmetic::power2::{pow2, lemma2_to64, lemma_pow2_unfold, lemma_pow2_strictly_increases, lemma_pow2};
use vstd::arithmetic::power::pow;

verus! {

/// `n` is a power of two (1, 2, 4, ...).
pub open spec fn power_of_two(n: nat) -> bool
    decreases n,
{
    if n == 0 {
        false
    } else if n == 1 {
        true
    } else {
        n % 2 == 0 && power_of_two((n / 2) as nat)
    }
}

/// Every entry is a bit.
pub open spec fn all_bits(s: Seq<u8>) -> bool {
    forall|i: int| 0 <= i < s.len() ==> #[trigger] s[i] <= 1
}

/// The sum of the entries.
pub open spec fn entry_sum(s: Seq<u8>) -> int
    decreases s.len(),
{
    if s.len() == 0 {
        0
    } else {
        entry_sum(s.drop_last()) + s.last()
    }
}

/// The parity of a block: the sum of its entries modulo two.
pub open spec fn spec_parity(s: Seq<u8>) -> int {
    entry_sum(s) % 2
}

/// Block `j` when `v` is cut into blocks of `size` entries.
pub open spec fn block_of(v: Seq<u8>, size: int, j: int) -> Seq<u8> {
    v.subrange(j * size, (j + 1) * size)
}

/// The views of a sequence of vectors.
pub open spec fn views(bs: Seq<Vec<u8>>) -> Seq<Seq<u8>> {
    bs.map_values(|b: Vec<u8>| b@)
}

/// The blocks laid end to end.
pub open spec fn concat_blocks(bs: Seq<Seq<u8>>) -> Seq<u8>
    decreases bs.len(),
{
    if bs.len() == 0 {
        Seq::<u8>::empty()
    } else {
        concat_blocks(bs.drop_last()) + bs.last()
    }
}

/// The result of the cascade correction: a single bit is flipped; blocks whose length is
/// not a power of two are refused; otherwise the destination's bits come out.
pub open spec fn spec_cascade(src: Seq<u8>, dst: Seq<u8>) -> Option<Seq<u8>> {
    if src.len() == 1 {
        Some(seq![(1 - src[0]) as u8])
    } else if !power_of_two(src.len()) || !power_of_two(dst.len()) {
        None
    } else {
        Some(dst)
    }
}

/// Number of positions at which the two sequences agree.
pub open spec fn agreements(a: Seq<u8>, b: Seq<u8>, n: int) -> int
    decreases n,
{
    if n <= 0 {
        0
    } else {
        agreements(a, b, n - 1) + if a[n - 1] == b[n - 1] { 1int } else { 0int }
    }
}

/// The byte packed from eight bits starting at `start`, most significant first; bits past
/// the end count as 0.
pub open spec fn packed(bits: Seq<u8>, start: int, k: nat) -> int
    decreases k,
{
    if k == 0 {
        0
    } else {
        let i = start + k - 1;
        2 * packed(bits, start, (k - 1) as nat) + if 0 <= i < bits.len() { bits[i] as int } else { 0int }
    }
}

/// The bytes that a bit string packs into.
pub open spec fn packed_bytes(bits: Seq<u8>) -> Seq<u8> {
    Seq::new(((bits.len() + 7) / 8) as nat, |j: int| packed(bits, 8 * j, 8) as u8)
}

/// `base` raised to `exp`, by repeated multiplication.
fn usize_pow(base: usize, exp: u32) -> (r: usize)
    requires
        pow(base as int, exp as nat) <= usize::MAX,
    ensures
        r == pow(base as int, exp as nat),
{
    let mut r: usize = 1;
    let mut i: u32 = 0;
    proof {
        vstd::arithmetic::power::lemma_pow0(base as int);
    }
    while i < exp
        invariant
            i <= exp,
            r == pow(base as int, i as nat),
            pow(base as int, exp as nat) <= usize::MAX,
        decreases exp - i,
    {
        proof {
            assert(pow(base as int, (i + 1) as nat) == base * pow(base as int, i as nat)) by {
                reveal(pow);
            }
            if base > 0 {
                vstd::arithmetic::power::lemma_pow_increases(base as nat, (i + 1) as nat, exp as nat);
            } else {
                assert(base * pow(base as int, i as nat) == 0) by (nonlinear_arith)
                    requires
                        base == 0;
            }
        }
        r = r * base;
        i = i + 1;
    }
    r
}

/// Whether `n` is a power of two.
pub fn is_power_of_two(n: usize) -> (r: bool)
    ensures
        r == power_of_two(n as nat),
{
    if n == 0 {
        return false;
    }
    let mut m = n;
    while m > 1 && m % 2 == 0
        invariant
            m >= 1,
            power_of_two(m as nat) == power_of_two(n as nat),
        decreases m,
    {
        m = m / 2;
    }
    m == 1
}

proof fn lemma_entry_sum_push(s: Seq<u8>, x: u8)
    ensures
        entry_sum(s.push(x)) == entry_sum(s) + x,
{
    assert(s.push(x).drop_last() =~= s);
}

/// The parity of a block of bytes.
pub fn parity(v: &Vec<u8>) -> (r: u8)
    ensures
        r == spec_parity(v@),
{
    let mut acc: u8 = 0;
    let mut i: usize = 0;
    while i < v.len()
        invariant
            i <= v@.len(),
            acc as int == entry_sum(v@.take(i as int)) % 2,
        decreases v@.len() - i,
    {
        proof {
            assert(v@.take(i as int + 1) =~= v@.take(i as int).push(v@[i as int]));
            lemma_entry_sum_push(v@.take(i as int), v@[i as int]);
        }
        acc = (acc + v[i] % 2) % 2;
        i = i + 1;
    }
    proof {
        assert(v@.take(v@.len() as int) =~= v@);
    }
    acc
}

/// Cuts `v` into `blocks` blocks of equal length.
pub fn split_vector(v: Vec<u8>, blocks: usize) -> (r: Vec<Vec<u8>>)
    requires
        blocks > 0,
        (v@.len() as int) % (blocks as int) == 0,
    ensures
        r@.len() == blocks,
        forall|j: int|
            0 <= j < blocks ==> #[trigger] r@[j]@ == block_of(v@, (v@.len() as int) / (blocks as int), j),
{
    let size = v.len() / blocks;
    proof {
        assert(v@.len() == v.len());
        assert(size * blocks == v@.len()) by (nonlinear_arith)
            requires
                size == (v@.len() as int) / (blocks as int),
                (v@.len() as int) % (blocks as int) == 0,
                blocks > 0;
    }
    let mut out: Vec<Vec<u8>> = Vec::new();
    let mut j: usize = 0;
    let mut start: usize = 0;
    while j < blocks
        invariant
            j <= blocks,
            v@.len() <= usize::MAX,
            size * blocks == v@.len(),
            size == (v@.len() as int) / (blocks as int),
            start == j * size,
            out@.len() == j,
            forall|t: int| 0 <= t < j ==> #[trigger] out@[t]@ == block_of(v@, size as int, t),
        decreases blocks - j,
    {
        proof {
            assert(start + size <= v@.len()) by (nonlinear_arith)
                requires
                    start == j * size,
                    j < blocks,
                    size * blocks == v@.len();
            assert(start + size == (j + 1) * size) by (nonlinear_arith)
                requires
                    start == j * size;
        }
        let mut block: Vec<u8> = Vec::new();
        let mut t: usize = 0;
        while t < size
            invariant
                t <= size,
                start + size <= v@.len(),
                v@.len() <= usize::MAX,
                block@ == v@.subrange(start as int, start + t),
            decreases size - t,
        {
            block.push(v[start + t]);
            t = t + 1;
            proof {
                assert(block@ =~= v@.subrange(start as int, start + t));
            }
        }
        out.push(block);
        start = start + size;
        j = j + 1;
    }
    out
}

proof fn lemma_concat_push(bs: Seq<Seq<u8>>, b: Seq<u8>)
    ensures
        concat_blocks(bs.push(b)) == concat_blocks(bs) + b,
{
    assert(bs.push(b).drop_last() =~= bs);
}

/// Lays the blocks end to end.
pub fn flatten_blocks(blocks: &Vec<Vec<u8>>) -> (r: Vec<u8>)
    ensures
        r@ == concat_blocks(views(blocks@)),
{
    let mut out: Vec<u8> = Vec::new();
    let mut j: usize = 0;
    while j < blocks.len()
        invariant
            j <= blocks@.len(),
            out@ == concat_blocks(views(blocks@).take(j as int)),
        decreases blocks@.len() - j,
    {
        let block = &blocks[j];
        let ghost before = out@;
        let mut t: usize = 0;
        while t < block.len()
            invariant
                t <= block@.len(),
                out@ == before + block@.take(t as int),
            decreases block@.len() - t,
        {
            out.push(block[t]);
            t = t + 1;
            proof {
                assert(out@ =~= before + block@.take(t as int));
            }
        }
        proof {
            assert(block@.take(block@.len() as int) =~= block@);
            assert(views(blocks@).take(j as int + 1) =~= views(blocks@).take(j as int).push(block@));
            lemma_concat_push(views(blocks@).take(j as int), block@);
        }
        j = j + 1;
    }
    proof {
        assert(views(blocks@).take(blocks@.len() as int) =~= views(blocks@));
    }
    out
}

/// Whether two block lists hold the same blocks.
pub fn blocks_equal(a: &Vec<Vec<u8>>, b: &Vec<Vec<u8>>) -> (r: bool)
    ensures
        r == (views(a@) == views(b@)),
{
    if a.len() != b.len() {
        proof {
            assert(views(a@).len() != views(b@).len());
        }
        return false;
    }
    let mut j: usize = 0;
    while j < a.len()
        invariant
            a@.len() == b@.len(),
            j <= a@.len(),
            forall|t: int| 0 <= t < j ==> #[trigger] a@[t]@ == b@[t]@,
        decreases a@.len() - j,
    {
        let x = &a[j];
        let y = &b[j];
        if x.len() != y.len() {
            proof {
                assert(views(a@)[j as int] != views(b@)[j as int]);
            }
            return false;
        }
        let mut t: usize = 0;
        while t < x.len()
            invariant
                a@.len() == b@.len(),
                j < a@.len(),
                *x == a@[j as int],
                *y == b@[j as int],
                x@.len() == y@.len(),
                t <= x@.len(),
                forall|u: int| 0 <= u < t ==> x@[u] == y@[u],
            decreases x@.len() - t,
        {
            if x[t] != y[t] {
                proof {
                    assert(views(a@)[j as int] == x@);
                    assert(views(b@)[j as int] == y@);
                    assert(x@[t as int] != y@[t as int]);
                    assert(views(a@)[j as int] != views(b@)[j as int]);
                }
                return false;
            }
            t = t + 1;
        }
        proof {
            assert(x@ =~= y@);
        }
        j = j + 1;
    }
    proof {
        assert(views(a@) =~= views(b@));
    }
    true
}

/// Concatenating the first `j` blocks of a cut gives the matching prefix.
proof fn lemma_concat_of_cut(v: Seq<u8>, bs: Seq<Seq<u8>>, size: int, j: int)
    requires
        size >= 0,
        0 <= j <= bs.len(),
        bs.len() * size == v.len(),
        forall|t: int| 0 <= t < bs.len() ==> #[trigger] bs[t] == block_of(v, size, t),
    ensures
        concat_blocks(bs.take(j)) == v.subrange(0, j * size),
    decreases j,
{
    if j == 0 {
        assert(bs.take(0) =~= Seq::<Seq<u8>>::empty());
        assert(concat_blocks(bs.take(0)) == Seq::<u8>::empty());
        assert(j * size == 0) by (nonlinear_arith)
            requires
                j == 0;
        assert(v.subrange(0, 0) =~= Seq::<u8>::empty());
    } else {
        lemma_concat_of_cut(v, bs, size, j - 1);
        assert(bs.take(j).drop_last() =~= bs.take(j - 1));
        assert(bs.take(j).last() == bs[j - 1]);
        assert(bs[j - 1] == block_of(v, size, j - 1));
        assert(concat_blocks(bs.take(j)) == concat_blocks(bs.take(j - 1)) + bs[j - 1]);
        assert(j * size == (j - 1) * size + size) by (nonlinear_arith);
        assert(j * size <= bs.len() * size) by (nonlinear_arith)
            requires
                j <= bs.len(),
                size >= 0;
        assert((j - 1) * size >= 0) by (nonlinear_arith)
            requires
                j >= 1,
                size >= 0;
        assert(v.subrange(0, j * size) =~= v.subrange(0, (j - 1) * size) + block_of(v, size, j - 1));
    }
}

proof fn lemma_concat_of_full_cut(v: Seq<u8>, bs: Seq<Seq<u8>>, size: int)
    requires
        size >= 0,
        bs.len() * size == v.len(),
        forall|t: int| 0 <= t < bs.len() ==> #[trigger] bs[t] == block_of(v, size, t),
    ensures
        concat_blocks(bs) == v,
{
    lemma_concat_of_cut(v, bs, size, bs.len() as int);
    assert(bs.take(bs.len() as int) =~= bs);
    assert(v.subrange(0, v.len() as int) =~= v);
}

/// Cutting bits into equal blocks and laying the blocks end to end gives the bits back.
pub proof fn law_cut_then_join(v: Seq<u8>, blocks: int)
    requires
        blocks > 0,
        (v.len() as int) % blocks == 0,
    ensures
        concat_blocks(Seq::new(blocks as nat, |j: int| block_of(v, (v.len() as int) / blocks, j))) == v,
{
    let size = (v.len() as int) / blocks;
    let bs = Seq::new(blocks as nat, |j: int| block_of(v, size, j));
    assert(bs.len() * size == v.len()) by (nonlinear_arith)
        requires
            bs.len() == blocks,
            size == (v.len() as int) / blocks,
            (v.len() as int) % blocks == 0,
            blocks > 0;
    assert(size >= 0) by (nonlinear_arith)
        requires
            size == (v.len() as int) / blocks,
            blocks > 0;
    lemma_concat_of_full_cut(v, bs, size);
}

/// After the correction both parties hold the destination's bits: when the lengths are
/// an equal power of two of at least two, and when a single bit disagrees.
pub proof fn law_cascade_yields_destination_key(src: Seq<u8>, dst: Seq<u8>)
    requires
        src.len() == dst.len(),
        all_bits(src),
        all_bits(dst),
        (src.len() >= 2 && power_of_two(src.len())) || (src.len() == 1 && src[0] != dst[0]),
    ensures
        spec_cascade(src, dst) == Some(dst),
{
    if src.len() == 1 {
        assert(src[0] <= 1 && dst[0] <= 1);
        assert(seq![(1 - src[0]) as u8] =~= dst);
    }
}

proof fn lemma_bits_subrange(v: Seq<u8>, lo: int, hi: int)
    requires
        all_bits(v),
        0 <= lo <= hi <= v.len(),
    ensures
        all_bits(v.subrange(lo, hi)),
{
    assert forall|i: int| 0 <= i < v.subrange(lo, hi).len() implies #[trigger] v.subrange(lo, hi)[i] <= 1 by {
        assert(v.subrange(lo, hi)[i] == v[lo + i]);
    }
}

proof fn lemma_single_parity(s: Seq<u8>)
    requires
        s.len() == 1,
    ensures
        spec_parity(s) == s[0] % 2,
{
    assert(s.drop_last() =~= Seq::<u8>::empty());
    assert(entry_sum(Seq::<u8>::empty()) == 0);
    assert(entry_sum(s) == entry_sum(s.drop_last()) + s.last());
    assert(s.last() == s[0]);
}

/// Cascade error correction of the source bits against the destination bits.
///
/// The bits are cut into 2, 4, 8, ... blocks; a block whose parity differs is corrected
/// recursively, until the two sides agree. A single bit is flipped.
#[verifier::loop_isolation(false)]
pub fn cascade(src_qubits: Vec<u8>, dst_qubits: Vec<u8>) -> (r: Result<Vec<u8>, SiftingError>)
    requires
        src_qubits@.len() == dst_qubits@.len(),
        all_bits(src_qubits@),
        all_bits(dst_qubits@),
    ensures
        match spec_cascade(src_qubits@, dst_qubits@) {
            Some(key) => r matches Ok(v) && v@ == key,
            None => r matches Err(SiftingError::BadLength),
        },
    decreases src_qubits@.len(),
{
    let mut src_qubits = src_qubits;
    let mut dst_qubits = dst_qubits;
    let mut n: u32 = 1;
    if src_qubits.len() == 1 {
        let mut flipped: Vec<u8> = Vec::new();
        flipped.push(1 - src_qubits[0]);
        proof {
            assert(flipped@ =~= seq![(1 - src_qubits@[0]) as u8]);
        }
        return Ok(flipped);
    }
    if !is_power_of_two(src_qubits.len()) || !is_power_of_two(dst_qubits.len()) {
        return Err(SiftingError::BadLength);
    }
    let ghost src0 = src_qubits@;
    let ghost dst0 = dst_qubits@;
    let ghost len: int = src0.len() as int;
    let ghost mut size: int = len / 2;
    proof {
        assert(len >= 2);
        assert(len % 2 == 0);
        lemma_pow2_unfold(1);
        assert(pow2(0) == 1) by {
            lemma2_to64();
        }
    }
    loop
        invariant
            1 <= n,
            src_qubits@ == src0,
            dst_qubits@ == dst0,
            src0.len() == len,
            dst0.len() == len,
            len >= 2,
            len <= usize::MAX,
            all_bits(src0),
            all_bits(dst0),
            size >= 1,
            power_of_two(size as nat),
            pow2(n as nat) * size == len,
            spec_cascade(src0, dst0) == Some(dst0),
        decreases len - pow2(n as nat),
    {
        proof {
            lemma_pow2(n as nat);
            assert(pow2(n as nat) <= len) by (nonlinear_arith)
                requires
                    pow2(n as nat) * size == len,
                    size >= 1;
            if n >= 64 {
                lemma2_to64();
                if n > 64 {
                    lemma_pow2_strictly_increases(64, n as nat);
                }
                assert(false);
            }
        }
        let blocks = usize_pow(2, n);
        proof {
            assert(blocks >= 2) by {
                lemma_pow2_unfold(n as nat);
                vstd::arithmetic::power2::lemma_pow2_pos((n - 1) as nat);
            }
            assert(len % (blocks as int) == 0 && len / (blocks as int) == size) by (nonlinear_arith)
                requires
                    blocks * size == len,
                    blocks > 0;
            assert(size < len) by (nonlinear_arith)
                requires
                    blocks * size == len,
                    blocks >= 2,
                    size >= 1;
        }
        let mut src_blocks = split_vector(src_qubits, blocks);
        let dst_blocks = split_vector(dst_qubits, blocks);
        let mut j: usize = 0;
        while j < blocks
            invariant
                blocks == pow2(n as nat),
                blocks * size == len,
                1 <= size < len,
                power_of_two(size as nat),
                all_bits(src0),
                all_bits(dst0),
                src0.len() == len,
                dst0.len() == len,
                j <= blocks,
                src_blocks@.len() == blocks,
                dst_blocks@.len() == blocks,
                forall|t: int| 0 <= t < blocks ==> #[trigger] dst_blocks@[t]@ == block_of(dst0, size, t),
                forall|t: int| j <= t < blocks ==> #[trigger] src_blocks@[t]@ == block_of(src0, size, t),
                forall|t: int|
                    0 <= t < j ==> #[trigger] src_blocks@[t]@ == if size == 1 {
                        block_of(dst0, size, t)
                    } else {
                        block_of(src0, size, t)
                    },
            decreases blocks - j,
        {
            proof {
                assert((j + 1) * size <= blocks * size) by (nonlinear_arith)
                    requires
                        j < blocks,
                        size >= 1;
                assert(j * size + size == (j + 1) * size) by (nonlinear_arith);
                lemma_bits_subrange(src0, j * size, (j + 1) * size);
                lemma_bits_subrange(dst0, j * size, (j + 1) * size);
            }
            let ps = parity(&src_blocks[j]);
            let pd = parity(&dst_blocks[j]);
            if ps != pd {
                let block = src_blocks[j].clone();
                let block_again = src_blocks[j].clone();
                proof {
                    assert(block@ =~= src_blocks@[j as int]@);
                    assert(block_again@ =~= src_blocks@[j as int]@);
                    assert(block_of(src0, size, j as int).len() == size);
                    assert(block@.len() == size);
                    assert(size < src0.len());
                }
                let fixed = match cascade(block, block_again) {
                    Ok(v) => v,
                    Err(e) => {
                        return Err(e);
                    },
                };
                proof {
                    if size == 1 {
                        let a = block_of(src0, size, j as int);
                        let b = block_of(dst0, size, j as int);
                        assert(j * size == j && (j + 1) * size == j + 1) by (nonlinear_arith)
                            requires
                                size == 1;
                        lemma_single_parity(a);
                        lemma_single_parity(b);
                        assert(a[0] == src0[j as int]);
                        assert(b[0] == dst0[j as int]);
                        assert(fixed@ =~= b);
                    }
                }
                src_blocks.set(j, fixed);
            } else {
                proof {
                    if size == 1 {
                        let a = block_of(src0, size, j as int);
                        let b = block_of(dst0, size, j as int);
                        assert(j * size == j && (j + 1) * size == j + 1) by (nonlinear_arith)
                            requires
                                size == 1;
                        lemma_single_parity(a);
                        lemma_single_parity(b);
                        assert(a[0] == src0[j as int]);
                        assert(b[0] == dst0[j as int]);
                        assert(a =~= b);
                    }
                }
            }
            j = j + 1;
        }
        proof {
            assert(views(dst_blocks@).len() * size == len);
            assert forall|t: int| 0 <= t < views(dst_blocks@).len() implies #[trigger] views(dst_blocks@)[t]
                == block_of(dst0, size, t) by {
                assert(views(dst_blocks@)[t] == dst_blocks@[t]@);
            }
            lemma_concat_of_full_cut(dst0, views(dst_blocks@), size);
            if size == 1 {
                assert(views(src_blocks@) =~= views(dst_blocks@));
            }
        }
        if blocks_equal(&src_blocks, &dst_blocks) {
            let key = flatten_blocks(&src_blocks);
            return Ok(key);
        }
        proof {
            assert(size != 1);
            assert forall|t: int| 0 <= t < views(src_blocks@).len() implies #[trigger] views(src_blocks@)[t]
                == block_of(src0, size, t) by {
                assert(views(src_blocks@)[t] == src_blocks@[t]@);
            }
            lemma_concat_of_full_cut(src0, views(src_blocks@), size);
        }
        src_qubits = flatten_blocks(&src_blocks);
        dst_qubits = flatten_blocks(&dst_blocks);
        proof {
            let old_size = size;
            assert(old_size % 2 == 0);
            size = old_size / 2;
            lemma_pow2_unfold(n as nat + 1);
            vstd::arithmetic::power2::lemma_pow2_pos(n as nat);
            assert(size >= 1);
            assert(pow2(n as nat + 1) > pow2(n as nat));
            assert(pow2(n as nat + 1) * size == len) by (nonlinear_arith)
                requires
                    pow2(n as nat + 1) == 2 * pow2(n as nat),
                    pow2(n as nat) * old_size == len,
                    old_size % 2 == 0,
                    size == old_size / 2;
            assert(pow2(n as nat + 1) <= len) by (nonlinear_arith)
                requires
                    pow2(n as nat + 1) * size == len,
                    size >= 1;
        }
        n = n + 1;
    }
}

/// The number of positions where the two bit strings agree (the numerator of the
/// agreement ratio that is logged).
pub fn count_matching_values(src_qubits: &Vec<u8>, dst_qubits: &Vec<u8>) -> (r: usize)
    requires
        src_qubits@.len() <= dst_qubits@.len(),
    ensures
        r == agreements(src_qubits@, dst_qubits@, src_qubits@.len() as int),
{
    let mut same_val: usize = 0;
    let mut n: usize = 0;
    while n < src_qubits.len()
        invariant
            n <= src_qubits@.len() <= dst_qubits@.len(),
            same_val == agreements(src_qubits@, dst_qubits@, n as int),
            same_val <= n,
        decreases src_qubits@.len() - n,
    {
        if src_qubits[n] == dst_qubits[n] {
            same_val = same_val + 1;
        }
        n = n + 1;
    }
    same_val
}

proof fn lemma_packed_bound(bits: Seq<u8>, start: int, k: nat)
    requires
        all_bits(bits),
    ensures
        0 <= packed(bits, start, k) < pow2(k),
    decreases k,
{
    if k == 0 {
        lemma2_to64();
        assert(packed(bits, start, k) == 0);
    } else {
        lemma_packed_bound(bits, start, (k - 1) as nat);
        lemma_pow2_unfold(k);
        let i = start + k - 1;
        let b: int = if 0 <= i < bits.len() { bits[i] as int } else { 0int };
        if 0 <= i < bits.len() {
            assert(bits[i] <= 1);
        }
        assert(0 <= b <= 1);
        assert(packed(bits, start, k) == 2 * packed(bits, start, (k - 1) as nat) + b);
    }
}

/// Packs a bit string into bytes, eight bits per byte, most significant bit first; a
/// final partial byte is filled with zero bits.
pub fn bits_to_bytes(bits: &Vec<u8>) -> (r: Vec<u8>)
    requires
        all_bits(bits@),
    ensures
        r@ == packed_bytes(bits@),
{
    let n = bits.len();
    let mut out: Vec<u8> = Vec::new();
    let mut j: usize = 0;
    let count = n / 8 + if n % 8 == 0 { 0 } else { 1 };
    proof {
        assert(count == (n + 7) / 8);
    }
    while j < count
        invariant
            count == (n + 7) / 8,
            n == bits@.len(),
            all_bits(bits@),
            j <= count,
            out@.len() == j,
            forall|t: int| 0 <= t < j ==> #[trigger] out@[t] as int == packed(bits@, 8 * t, 8),
        decreases count - j,
    {
        proof {
            assert(8 * j < n);
        }
        let start = 8 * j;
        let mut byte: u8 = 0;
        let mut k: usize = 0;
        while k < 8
            invariant
                k <= 8,
                start == 8 * j,
                j < count,
                start < n,
                count == (n + 7) / 8,
                n == bits@.len(),
                all_bits(bits@),
                byte as int == packed(bits@, start as int, k as nat),
            decreases 8 - k,
        {
            proof {
                lemma_packed_bound(bits@, start as int, k as nat);
                lemma_packed_bound(bits@, start as int, (k + 1) as nat);
                assert(pow2(8) == 256 && pow2(7) == 128) by {
                    lemma2_to64();
                }
                if k + 1 < 8 {
                    lemma_pow2_strictly_increases((k + 1) as nat, 8);
                }
            }
            let bit: u8 = if k < n - start { bits[start + k] } else { 0 };
            proof {
                if k < n - start {
                    assert(bits@[start + k] <= 1);
                }
            }
            byte = 2 * byte + bit;
            k = k + 1;
        }
        out.push(byte);
        j = j + 1;
    }
    proof {
        assert forall|t: int| 0 <= t < out@.len() implies #[trigger] out@[t] == packed_bytes(bits@)[t] by {
            lemma_packed_bound(bits@, 8 * t, 8);
            lemma2_to64();
        }
        assert(out@ =~= packed_bytes(bits@));
    }
    out
}

} // verus!
