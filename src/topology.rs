use vstd::prelude::*;

use crate::anvil::MAX_ITEMS;
use crate::bits::bit32;

verus! {

/// Splits of `n` items are numbered by masks from 1 up to, not including, this
/// limit: the mask's set bits name the left group, and the last item always
/// stands on the right, so each bipartition appears exactly once.
pub open spec fn mask_limit(n: nat) -> u32 {
    1u32 << ((n - 1) as u32)
}

/// The indices below `n` whose bit in `mask` is `left`, ascending.
pub open spec fn side(mask: u32, n: nat, left: bool) -> Seq<int>
    decreases n,
{
    if n == 0 {
        Seq::empty()
    } else if bit32(mask, (n - 1) as u32) == left {
        side(mask, (n - 1) as nat, left).push(n - 1)
    } else {
        side(mask, (n - 1) as nat, left)
    }
}

/// The mask of the `k` lowest bits.
pub open spec fn low_bits(k: u32) -> u32 {
    ((1u32 << k) - 1) as u32
}

proof fn lemma_low_bits(mask: u32, k: u32)
    by (bit_vector)
    requires
        k < 31,
    ensures
        (mask & low_bits((k + 1) as u32)) == 0 <==> ((mask & low_bits(k)) == 0 && !bit32(
            mask,
            k,
        )),
        (mask & low_bits(0u32)) == 0,
{
}

proof fn lemma_limit_bits(mask: u32, k: u32)
    by (bit_vector)
    requires
        1 <= k < 31,
        1 <= mask < (1u32 << k),
    ensures
        (mask & low_bits(k)) != 0,
        !bit32(mask, k),
        (1u32 << k) <= (1u32 << 30u32),
{
}

proof fn lemma_limit(k: u32)
    by (bit_vector)
    requires
        1 <= k < 31,
    ensures
        2 <= (1u32 << k) <= (1u32 << 30u32),
{
}

proof fn lemma_limit_small(k: u32)
    by (bit_vector)
    requires
        k <= 9,
    ensures
        (1u32 << k) <= 512,
{
}

/// The split numbering of `n` items starts at 1 and stays below 512.
pub proof fn lemma_mask_limit(n: nat)
    requires
        2 <= n <= MAX_ITEMS,
    ensures
        2 <= mask_limit(n) <= 512,
{
    lemma_limit((n - 1) as u32);
    lemma_limit_small((n - 1) as u32);
}

/// The left side of the first `k` indices is empty exactly when the low `k`
/// bits of `mask` are clear.
proof fn lemma_side_empty(mask: u32, k: nat)
    requires
        k <= 31,
    ensures
        side(mask, k, true).len() == 0 <==> (mask & low_bits(k as u32)) == 0,
    decreases k,
{
    if k == 0 {
        lemma_low_bits(mask, 0);
    } else {
        lemma_side_empty(mask, (k - 1) as nat);
        lemma_low_bits(mask, (k - 1) as u32);
    }
}

/// The two sides partition the indices below `n`, in order.
pub proof fn lemma_side(mask: u32, n: nat, left: bool)
    ensures
        side(mask, n, true).len() + side(mask, n, false).len() == n,
        forall|i: int| 0 <= i < side(mask, n, left).len() ==> 0 <= #[trigger] side(mask, n, left)[i] < n,
        forall|i: int, j: int|
            0 <= i < j < side(mask, n, left).len() ==> side(mask, n, left)[i] < side(mask, n, left)[j],
    decreases n,
{
    if n > 0 {
        lemma_side(mask, (n - 1) as nat, left);
        lemma_side(mask, (n - 1) as nat, !left);
    }
}

/// Every mask in range splits `n` items into two non-empty groups.
pub proof fn lemma_split_sizes(mask: u32, n: nat)
    requires
        2 <= n <= MAX_ITEMS,
        1 <= mask < mask_limit(n),
    ensures
        1 <= side(mask, n, true).len() < n,
        1 <= side(mask, n, false).len() < n,
{
    let k = (n - 1) as u32;
    lemma_limit_bits(mask, k);
    lemma_side_empty(mask, (n - 1) as nat);
    lemma_side(mask, n, true);
    assert(side(mask, n, true) == side(mask, (n - 1) as nat, true));
    assert(side(mask, n, false).len() == side(mask, (n - 1) as nat, false).len() + 1);
}

/// The indices of one side of the split named by `mask`.
pub fn side_indices(mask: u32, n: usize, left: bool) -> (r: Vec<usize>)
    requires
        n <= MAX_ITEMS,
    ensures
        r@.map_values(|i: usize| i as int) == side(mask, n as nat, left),
{
    let mut out: Vec<usize> = Vec::new();
    let mut i: usize = 0;
    while i < n
        invariant
            i <= n <= MAX_ITEMS,
            out@.map_values(|x: usize| x as int) == side(mask, i as nat, left),
        decreases n - i,
    {
        let bit = (mask >> (i as u32)) & 1u32 == 1u32;
        if bit == left {
            out.push(i);
            assert(out@.map_values(|x: usize| x as int) =~= side(mask, i as nat, left).push(
                i as int,
            ));
        }
        assert(side(mask, (i + 1) as nat, left) == if bit32(mask, i as u32) == left {
            side(mask, i as nat, left).push(i as int)
        } else {
            side(mask, i as nat, left)
        });
        i += 1;
    }
    out
}

/// Every way of splitting `n` items into a left and a right group, each
/// bipartition once: entry `t` is the split named by mask `t + 1`.
pub fn topologies(n: usize) -> (r: Vec<(Vec<usize>, Vec<usize>)>)
    requires
        2 <= n <= MAX_ITEMS,
    ensures
        r@.len() == mask_limit(n as nat) - 1,
        forall|t: int|
            0 <= t < r@.len() ==> (#[trigger] r@[t]).0@.map_values(|i: usize| i as int) == side(
                (t + 1) as u32,
                n as nat,
                true,
            ) && r@[t].1@.map_values(|i: usize| i as int) == side((t + 1) as u32, n as nat, false),
{
    let limit: u32 = 1u32 << ((n - 1) as u32);
    proof {
        lemma_limit((n - 1) as u32);
    }
    let mut out: Vec<(Vec<usize>, Vec<usize>)> = Vec::new();
    let mut mask: u32 = 1;
    while mask < limit
        invariant
            2 <= n <= MAX_ITEMS,
            limit == mask_limit(n as nat),
            limit <= (1u32 << 30u32),
            1 <= mask <= limit,
            out@.len() == mask - 1,
            forall|t: int|
                0 <= t < out@.len() ==> (#[trigger] out@[t]).0@.map_values(|i: usize| i as int)
                    == side((t + 1) as u32, n as nat, true) && out@[t].1@.map_values(
                    |i: usize| i as int,
                ) == side((t + 1) as u32, n as nat, false),
        decreases limit - mask,
    {
        let left = side_indices(mask, n, true);
        let right = side_indices(mask, n, false);
        out.push((left, right));
        mask += 1;
    }
    out
}

} // verus!
