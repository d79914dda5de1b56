use vstd::prelude::*;

use crate::anvil::{
    lemma_transfer_cost, merge_fits, merged_penalty, pair_plan, CombinationError, Item, Plan,
    MAX_ITEMS, MAX_TRANSFER_COST,
};
use crate::topology::{lemma_mask_limit, lemma_split_sizes, mask_limit, side};

verus! {

/// One candidate plan, or the failure met while building it.
pub type Attempt = Result<Plan, CombinationError>;

/// The items at the positions `idx`, in that order.
pub open spec fn pick(items: Seq<Item>, idx: Seq<int>) -> Seq<Item> {
    idx.map_values(|i: int| items[i])
}

/// The left group of the split named by `mask`.
pub open spec fn left_of(items: Seq<Item>, mask: u32) -> Seq<Item> {
    pick(items, side(mask, items.len(), true))
}

/// The right group of the split named by `mask`.
pub open spec fn right_of(items: Seq<Item>, mask: u32) -> Seq<Item> {
    pick(items, side(mask, items.len(), false))
}

/// Whether `mask` names a split of `n` items that the search recurses on.
pub open spec fn splittable(n: nat, mask: u32) -> bool {
    3 <= n <= MAX_ITEMS && 1 <= mask < mask_limit(n)
}

/// Whether both groups of the split are non-empty and smaller than the whole.
pub open spec fn proper(n: nat, mask: u32) -> bool {
    &&& 1 <= side(mask, n, true).len() < n
    &&& 1 <= side(mask, n, false).len() < n
}

/// The item that a plan over `items` ends with.
pub open spec fn outcome(items: Seq<Item>, plan: Plan) -> Item {
    if plan.0.len() == 0 {
        items[0]
    } else {
        plan.0.last().result
    }
}

/// A plan for a left group and one for a right group, finished by the
/// cheaper merge of their two outcomes: left steps, right steps, final step.
pub open spec fn join(left: Seq<Item>, right: Seq<Item>, l: Attempt, r: Attempt) -> Attempt {
    match l {
        Err(e) => Err(e),
        Ok(lp) => match r {
            Err(e) => Err(e),
            Ok(rp) => match pair_plan(outcome(left, lp), outcome(right, rp)) {
                Err(e) => Err(e),
                Ok(pp) => Ok((lp.0 + rp.0 + pp.0, lp.1 + rp.1 + pp.1)),
            },
        },
    }
}

/// Every left plan joined with every right plan, left-major.
pub open spec fn pairs(left: Seq<Item>, right: Seq<Item>, ls: Seq<Attempt>, rs: Seq<Attempt>) -> Seq<
    Attempt,
>
    decreases ls.len(),
{
    if ls.len() == 0 {
        Seq::empty()
    } else {
        pairs(left, right, ls.drop_last(), rs) + rs.map_values(
            |r: Attempt| join(left, right, ls.last(), r),
        )
    }
}

/// Every plan for `items`, in search order: the splits by ascending mask,
/// and within a split every left plan with every right plan.
pub open spec fn plans(items: Seq<Item>) -> Seq<Attempt>
    decreases items.len(), 2int, 0int,
{
    if items.len() <= 1 {
        seq![Ok((Seq::<crate::anvil::Step>::empty(), 0int))]
    } else if items.len() == 2 {
        seq![pair_plan(items[0], items[1])]
    } else {
        plans_from(items, 1)
    }
}

/// The plans of the splits named by `mask` and above.
pub open spec fn plans_from(items: Seq<Item>, mask: u32) -> Seq<Attempt>
    decreases items.len(), 1int, mask_limit(items.len()) - mask,
{
    if !splittable(items.len(), mask) {
        Seq::empty()
    } else {
        let l = left_of(items, mask);
        let r = right_of(items, mask);
        if proper(items.len(), mask) {
            pairs(l, r, plans(l), plans(r)) + plans_from(items, (mask + 1) as u32)
        } else {
            plans_from(items, (mask + 1) as u32)
        }
    }
}

/// How many plans there are for `n` items.
pub open spec fn count(n: nat) -> nat
    decreases n, 2int, 0int,
{
    if n <= 2 {
        1
    } else {
        count_from(n, 1)
    }
}

/// How many plans the splits named by `mask` and above give.
pub open spec fn count_from(n: nat, mask: u32) -> nat
    decreases n, 1int, mask_limit(n) - mask,
{
    if !splittable(n, mask) {
        0
    } else if proper(n, mask) {
        count(side(mask, n, true).len()) * count(side(mask, n, false).len()) + count_from(
            n,
            (mask + 1) as u32,
        )
    } else {
        count_from(n, (mask + 1) as u32)
    }
}

/// Plan number `k` for `items`, found by decoding `k` split by split.
pub open spec fn nth(items: Seq<Item>, k: nat) -> Attempt
    decreases items.len(), 2int, 0int,
{
    if items.len() <= 1 {
        Ok((Seq::<crate::anvil::Step>::empty(), 0int))
    } else if items.len() == 2 {
        pair_plan(items[0], items[1])
    } else {
        nth_from(items, 1, k)
    }
}

/// Plan number `k` among those of the splits named by `mask` and above.
pub open spec fn nth_from(items: Seq<Item>, mask: u32, k: nat) -> Attempt
    decreases items.len(), 1int, mask_limit(items.len()) - mask,
{
    if !splittable(items.len(), mask) {
        Ok((Seq::<crate::anvil::Step>::empty(), 0int))
    } else if proper(items.len(), mask) {
        let l = left_of(items, mask);
        let r = right_of(items, mask);
        let per_left = count(r.len());
        let block = count(l.len()) * per_left;
        if k < block {
            join(l, r, nth(l, k / per_left), nth(r, k % per_left))
        } else {
            nth_from(items, (mask + 1) as u32, (k - block) as nat)
        }
    } else {
        nth_from(items, (mask + 1) as u32, k)
    }
}

/// There is at least one plan for any number of items the search takes.
pub proof fn lemma_count_positive(n: nat)
    requires
        n <= MAX_ITEMS,
    ensures
        count(n) >= 1,
    decreases n,
{
    if n > 2 {
        lemma_mask_limit(n);
        lemma_split_sizes(1, n);
        let a = side(1, n, true).len();
        let b = side(1, n, false).len();
        lemma_count_positive(a);
        lemma_count_positive(b);
        assert(count(a) * count(b) >= 1) by (nonlinear_arith)
            requires
                count(a) >= 1,
                count(b) >= 1,
        ;
        assert(count(n) == count_from(n, 1));
    }
}

/// Where each pair lands in `pairs`: left plan `a` with right plan `b` is
/// entry `a * rs.len() + b`.
pub proof fn lemma_pairs(left: Seq<Item>, right: Seq<Item>, ls: Seq<Attempt>, rs: Seq<Attempt>)
    ensures
        pairs(left, right, ls, rs).len() == ls.len() * rs.len(),
        forall|a: int, b: int|
            0 <= a < ls.len() && 0 <= b < rs.len() ==> #[trigger] pairs(left, right, ls, rs)[a
                * rs.len() + b] == join(left, right, ls[a], rs[b]),
    decreases ls.len(),
{
    if ls.len() > 0 {
        let init = ls.drop_last();
        lemma_pairs(left, right, init, rs);
        let p = pairs(left, right, ls, rs);
        assert(init.len() * rs.len() + rs.len() == ls.len() * rs.len()) by (nonlinear_arith)
            requires
                init.len() + 1 == ls.len(),
        ;
        assert forall|a: int, b: int| 0 <= a < ls.len() && 0 <= b < rs.len() implies #[trigger] p[a
            * rs.len() + b] == join(left, right, ls[a], rs[b]) by {
            if a < init.len() {
                assert(a * rs.len() + b < init.len() * rs.len()) by (nonlinear_arith)
                    requires
                        a + 1 <= init.len(),
                        b < rs.len(),
                ;
                assert(init[a] == ls[a]);
            } else {
                assert(a * rs.len() == init.len() * rs.len());
            }
        }
    }
}

/// The two ways of listing the plans agree: the concatenated list has
/// `count(n)` entries and entry `k` is plan number `k`.
pub proof fn lemma_plans_nth(items: Seq<Item>)
    requires
        items.len() <= MAX_ITEMS,
    ensures
        plans(items).len() == count(items.len()),
        forall|k: nat| k < count(items.len()) ==> #[trigger] plans(items)[k as int] == nth(items, k),
    decreases items.len(), 2int, 0int,
{
    if items.len() > 2 {
        lemma_plans_from_nth(items, 1);
    }
}

/// `lemma_plans_nth` for the splits named by `mask` and above.
pub proof fn lemma_plans_from_nth(items: Seq<Item>, mask: u32)
    requires
        3 <= items.len() <= MAX_ITEMS,
        1 <= mask,
    ensures
        plans_from(items, mask).len() == count_from(items.len(), mask),
        forall|k: nat|
            k < count_from(items.len(), mask) ==> #[trigger] plans_from(items, mask)[k as int]
                == nth_from(items, mask, k),
    decreases items.len(), 1int, mask_limit(items.len()) - mask,
{
    let n = items.len();
    if splittable(n, mask) {
        let next = (mask + 1) as u32;
        lemma_plans_from_nth(items, next);
        if proper(n, mask) {
            let l = left_of(items, mask);
            let r = right_of(items, mask);
            lemma_plans_nth(l);
            lemma_plans_nth(r);
            lemma_count_positive(r.len());
            let ls = plans(l);
            let rs = plans(r);
            lemma_pairs(l, r, ls, rs);
            let block = count(l.len()) * count(r.len());
            let head = pairs(l, r, ls, rs);
            let all = plans_from(items, mask);
            assert(all == head + plans_from(items, next));
            assert forall|k: nat| k < count_from(n, mask) implies #[trigger] all[k as int]
                == nth_from(items, mask, k) by {
                if k < block {
                    let cr = count(r.len());
                    let a: int = (k / cr) as int;
                    let b: int = (k % cr) as int;
                    assert(k == a * cr + b && 0 <= b < cr && a < count(l.len())) by (nonlinear_arith)
                        requires
                            cr >= 1,
                            k < count(l.len()) * cr,
                            a == k / cr,
                            b == k % cr,
                    ;
                    assert(head[a * rs.len() + b] == join(l, r, ls[a], rs[b]));
                    assert(ls[a] == nth(l, a as nat));
                    assert(rs[b] == nth(r, b as nat));
                } else {
                    assert(all[k as int] == plans_from(items, next)[k - block]);
                }
            }
        }
    }
}

/// Highest penalty a leaf item may carry; with it no penalty or cost of a
/// plan of up to `MAX_ITEMS` items overflows `u16`.
pub const LEAF_PENALTY_LIMIT: u16 = 63;

/// Bound on the penalty of the item that a plan of `m` leaves ends with.
pub open spec fn penalty_bound(m: nat) -> int {
    if m <= 1 {
        63
    } else if m <= 2 {
        127
    } else if m <= 3 {
        255
    } else if m <= 4 {
        511
    } else if m <= 5 {
        1023
    } else if m <= 6 {
        2047
    } else if m <= 7 {
        4095
    } else if m <= 8 {
        8191
    } else if m <= 9 {
        16383
    } else {
        32767
    }
}

/// Bound on the total cost of a plan of `m` leaves.
pub open spec fn cost_bound(m: nat) -> int {
    if m <= 1 {
        0
    } else if m <= 2 {
        2311
    } else if m <= 3 {
        4686
    } else if m <= 4 {
        7189
    } else if m <= 5 {
        9948
    } else if m <= 6 {
        13219
    } else if m <= 7 {
        17514
    } else if m <= 8 {
        23857
    } else if m <= 9 {
        34296
    } else {
        52927
    }
}

/// Bound on the number of plans of `m` leaves.
pub open spec fn count_bound(m: nat) -> nat {
    if m <= 1 {
        1
    } else if m <= 2 {
        1
    } else if m <= 3 {
        3
    } else if m <= 4 {
        21
    } else if m <= 5 {
        315
    } else if m <= 6 {
        9765
    } else if m <= 7 {
        615195
    } else if m <= 8 {
        78129765
    } else if m <= 9 {
        19923090075
    } else {
        10180699028325
    }
}

proof fn lemma_shift_values(k: u32)
    by (bit_vector)
    requires
        k <= 9,
    ensures
        (1u32 << k) == if k == 0 {
            1u32
        } else if k == 1 {
            2u32
        } else if k == 2 {
            4u32
        } else if k == 3 {
            8u32
        } else if k == 4 {
            16u32
        } else if k == 5 {
            32u32
        } else if k == 6 {
            64u32
        } else if k == 7 {
            128u32
        } else if k == 8 {
            256u32
        } else {
            512u32
        },
{
}

/// How the bound tables grow when two groups are joined.
pub proof fn lemma_tables(a: nat, b: nat)
    requires
        1 <= a,
        1 <= b,
        a + b <= MAX_ITEMS,
    ensures
        cost_bound(a) + cost_bound(b) + penalty_bound(a) + penalty_bound(b) + MAX_TRANSFER_COST
            <= cost_bound(a + b),
        2 * penalty_bound(a) + 1 <= penalty_bound(a + b),
        2 * penalty_bound(b) + 1 <= penalty_bound(a + b),
        penalty_bound(a) + penalty_bound(b) + MAX_TRANSFER_COST <= u16::MAX,
        count_bound(a) * count_bound(b) <= count_bound((a + b - 1) as nat),
        cost_bound(a + b) <= u16::MAX,
        penalty_bound(a + b) <= u16::MAX,
{
}

/// The count grows by a factor of one less than the number of splits.
proof fn lemma_count_table(n: nat)
    requires
        3 <= n <= MAX_ITEMS,
    ensures
        count_bound(n) == (mask_limit(n) - 1) * count_bound((n - 1) as nat),
        count_bound(n) <= count_bound(MAX_ITEMS as nat),
{
    lemma_shift_values((n - 1) as u32);
}

/// `count_from` is at most one bound-sized block per remaining split.
proof fn lemma_count_from_bound(n: nat, mask: u32)
    requires
        3 <= n <= MAX_ITEMS,
        1 <= mask <= mask_limit(n),
    ensures
        count_from(n, mask) <= (mask_limit(n) - mask) * count_bound((n - 1) as nat),
    decreases n, 1int, mask_limit(n) - mask,
{
    lemma_mask_limit(n);
    if mask < mask_limit(n) {
        let next = (mask + 1) as u32;
        lemma_count_from_bound(n, next);
        lemma_split_sizes(mask, n);
        let a = side(mask, n, true).len();
        let b = side(mask, n, false).len();
        crate::topology::lemma_side(mask, n, true);
        lemma_count_bound(a);
        lemma_count_bound(b);
        lemma_tables(a, b);
        let kb = count_bound((n - 1) as nat);
        assert(count(a) * count(b) <= kb) by (nonlinear_arith)
            requires
                count(a) <= count_bound(a),
                count(b) <= count_bound(b),
                count_bound(a) * count_bound(b) <= kb,
        ;
        assert((mask_limit(n) - next) * kb + kb == (mask_limit(n) - mask) * kb) by (nonlinear_arith)
            requires
                next == mask + 1,
        ;
    }
}

/// The plans of the splits named by `mask` and above are few enough for `u64`,
/// and the first of those splits contributes its block to them.
pub proof fn lemma_count_from_small(n: nat, mask: u32)
    requires
        3 <= n <= MAX_ITEMS,
        1 <= mask < mask_limit(n),
    ensures
        count_from(n, mask) <= count_bound(MAX_ITEMS as nat),
        count(side(mask, n, true).len()) * count(side(mask, n, false).len()) <= count_from(n, mask),
{
    lemma_mask_limit(n);
    lemma_split_sizes(mask, n);
    lemma_count_from_bound(n, mask);
    lemma_count_table(n);
    let kb = count_bound((n - 1) as nat);
    assert((mask_limit(n) - mask) * kb <= (mask_limit(n) - 1) * kb) by (nonlinear_arith)
        requires
            1 <= mask,
    ;
}

/// There are between 1 and `count_bound(n)` plans of `n` leaves.
pub proof fn lemma_count_bound(n: nat)
    requires
        n <= MAX_ITEMS,
    ensures
        1 <= count(n) <= count_bound(n),
        count_bound(n) <= count_bound(MAX_ITEMS as nat),
    decreases n, 2int, 0int,
{
    lemma_count_positive(n);
    if n > 2 {
        lemma_mask_limit(n);
        lemma_count_from_bound(n, 1);
        lemma_count_table(n);
    }
}

/// Every leaf's penalty is within `LEAF_PENALTY_LIMIT`.
pub open spec fn leaves_fit(items: Seq<Item>) -> bool {
    forall|i: int| 0 <= i < items.len() ==> #[trigger] items[i].prior_work_penalty <= LEAF_PENALTY_LIMIT
}

/// A plan over `items` has one step fewer than items, and its cost and the
/// penalty of what it ends with are within the bounds for its size.
pub open spec fn plan_fits(items: Seq<Item>, p: Plan) -> bool {
    &&& p.0.len() + 1 == items.len()
    &&& 0 <= p.1 <= cost_bound(items.len())
    &&& outcome(items, p).prior_work_penalty <= penalty_bound(items.len())
}

/// The cheaper merge of two items has one step, costs at most the two
/// penalties plus `MAX_TRANSFER_COST`, and ends with the merged penalty.
pub proof fn lemma_pair_fits(x: Item, y: Item)
    requires
        merge_fits(x, y),
    ensures
        pair_plan(x, y) matches Ok(pp) ==> {
            &&& pp.0.len() == 1
            &&& 0 <= pp.1 <= x.prior_work_penalty + y.prior_work_penalty + MAX_TRANSFER_COST
            &&& pp.0[0].result.prior_work_penalty == merged_penalty(x, y)
            &&& pp.0[0].cost == pp.1
        },
{
    lemma_transfer_cost(x, y, 0, x.enchantments, 0);
    lemma_transfer_cost(y, x, 0, y.enchantments, 0);
}

/// Every plan of a few small-penalty leaves that succeeds fits its bounds.
pub proof fn lemma_nth_fits(items: Seq<Item>, k: nat)
    requires
        1 <= items.len() <= MAX_ITEMS,
        leaves_fit(items),
        k < count(items.len()),
    ensures
        nth(items, k) matches Ok(p) ==> plan_fits(items, p),
    decreases items.len(), 2int, 0int,
{
    assert(items[0].prior_work_penalty <= LEAF_PENALTY_LIMIT);
    if items.len() == 2 {
        assert(items[1].prior_work_penalty <= LEAF_PENALTY_LIMIT);
        lemma_tables(1, 1);
        lemma_pair_fits(items[0], items[1]);
        if let Ok(pp) = pair_plan(items[0], items[1]) {
            assert(pp.0.last() == pp.0[0]);
        }
    } else if items.len() > 2 {
        lemma_nth_from_fits(items, 1, k);
    }
}

/// `lemma_nth_fits` for the splits named by `mask` and above.
pub proof fn lemma_nth_from_fits(items: Seq<Item>, mask: u32, k: nat)
    requires
        3 <= items.len() <= MAX_ITEMS,
        leaves_fit(items),
        1 <= mask,
        k < count_from(items.len(), mask),
    ensures
        nth_from(items, mask, k) matches Ok(p) ==> plan_fits(items, p),
    decreases items.len(), 1int, mask_limit(items.len()) - mask,
{
    let n = items.len();
    lemma_split_sizes(mask, n);
    crate::topology::lemma_side(mask, n, true);
    crate::topology::lemma_side(mask, n, false);
    let l = left_of(items, mask);
    let r = right_of(items, mask);
    let per_left = count(r.len());
    let block = count(l.len()) * per_left;
    if k < block {
        lemma_count_positive(r.len());
        let a = k / per_left;
        let b = k % per_left;
        assert(a < count(l.len()) && b < per_left) by (nonlinear_arith)
            requires
                per_left >= 1,
                k < count(l.len()) * per_left,
                a == k / per_left,
                b == k % per_left,
        ;
        lemma_pick_fits(items, side(mask, n, true));
        lemma_pick_fits(items, side(mask, n, false));
        lemma_nth_fits(l, a);
        lemma_nth_fits(r, b);
        lemma_tables(l.len(), r.len());
        if let Ok(lp) = nth(l, a) {
            if let Ok(rp) = nth(r, b) {
                let x = outcome(l, lp);
                let y = outcome(r, rp);
                lemma_pair_fits(x, y);
                if let Ok(pp) = pair_plan(x, y) {
                    assert((lp.0 + rp.0 + pp.0).last() == pp.0[0]);
                }
            }
        }
    } else {
        lemma_nth_from_fits(items, (mask + 1) as u32, (k - block) as nat);
    }
}

/// A group picked from small-penalty leaves has small-penalty leaves.
pub proof fn lemma_pick_fits(items: Seq<Item>, idx: Seq<int>)
    requires
        leaves_fit(items),
        forall|i: int| 0 <= i < idx.len() ==> 0 <= #[trigger] idx[i] < items.len(),
    ensures
        leaves_fit(pick(items, idx)),
{
    assert forall|i: int| 0 <= i < pick(items, idx).len() implies #[trigger] pick(
        items,
        idx,
    )[i].prior_work_penalty <= LEAF_PENALTY_LIMIT by {
        assert(0 <= idx[i] < items.len());
    }
}

} // verus!
