use vstd::prelude::*;

use crate::anvil::{pair_plan, steps_new, steps_of, steps_push, Branch, CombinationError, Item, Plan, Step, MAX_ITEMS};
use crate::branches::{copy_items, join_branches, pick_items, settle};
use crate::search::{
    count, join, lemma_count_positive, nth, lemma_pair_fits, lemma_pairs, lemma_pick_fits, lemma_plans_nth,
    lemma_tables, leaves_fit, left_of, pairs, pick, plan_fits, plans, plans_from,
    right_of, Attempt, LEAF_PENALTY_LIMIT,
};
use crate::topology::{lemma_mask_limit, lemma_side, lemma_split_sizes, mask_limit, side, side_indices};

verus! {

/// The plans before the first failure, and that failure if there is one.
pub open spec fn scan(s: Seq<Attempt>) -> (Seq<Plan>, Option<CombinationError>)
    decreases s.len(),
{
    if s.len() == 0 {
        (Seq::empty(), None)
    } else {
        let (ps, e) = scan(s.drop_last());
        if e is Some {
            (ps, e)
        } else {
            match s.last() {
                Ok(p) => (ps.push(p), None),
                Err(x) => (ps, Some(x)),
            }
        }
    }
}

/// `settle` read off `scan`.
pub proof fn lemma_scan_settle(s: Seq<Attempt>)
    ensures
        settle(s) == match scan(s).1 {
            Some(e) => Err::<Seq<Plan>, CombinationError>(e),
            None => Ok(scan(s).0),
        },
    decreases s.len(),
{
    if s.len() > 0 {
        lemma_scan_settle(s.drop_last());
    }
}

/// What `scan` says entry by entry.
pub proof fn lemma_scan_entries(s: Seq<Attempt>)
    ensures
        scan(s).1 is None ==> scan(s).0.len() == s.len(),
        scan(s).1 is Some ==> scan(s).0.len() < s.len() && s[scan(s).0.len() as int] == Err::<
            Plan,
            CombinationError,
        >(scan(s).1->Some_0),
        forall|i: int| 0 <= i < scan(s).0.len() ==> #[trigger] s[i] == Ok::<Plan, CombinationError>(
            scan(s).0[i],
        ),
    decreases s.len(),
{
    if s.len() > 0 {
        lemma_scan_entries(s.drop_last());
        assert forall|i: int| 0 <= i < s.drop_last().len() implies s.drop_last()[i] == s[i] by {}
    }
}

/// Scanning a concatenation: the first part, then the second if the first had no failure.
pub proof fn lemma_scan_append(a: Seq<Attempt>, b: Seq<Attempt>)
    ensures
        scan(a + b) == if scan(a).1 is Some {
            scan(a)
        } else {
            (scan(a).0 + scan(b).0, scan(b).1)
        },
    decreases b.len(),
{
    if b.len() == 0 {
        assert(a + b =~= a);
        assert(scan(a).0 + Seq::<Plan>::empty() =~= scan(a).0);
    } else {
        lemma_scan_append(a, b.drop_last());
        assert((a + b).drop_last() =~= a + b.drop_last());
        let (ps, e) = scan(b.drop_last());
        if let Ok(p) = b.last() {
            assert(scan(a).0 + ps.push(p) =~= (scan(a).0 + ps).push(p));
        }
    }
}

/// Picking by positions from a pick is picking by the composed positions.
pub proof fn lemma_pick_pick(pool: Seq<Item>, idx: Seq<int>, pos: Seq<int>)
    requires
        forall|i: int| 0 <= i < pos.len() ==> 0 <= #[trigger] pos[i] < idx.len(),
    ensures
        pick(pick(pool, idx), pos) == pick(pool, pos.map_values(|p: int| idx[p])),
{
    assert(pick(pick(pool, idx), pos) =~= pick(pool, pos.map_values(|p: int| idx[p])));
}

/// Converse of `lemma_scan_entries`: entries determine the scan.
pub proof fn lemma_scan_from_entries(
    s: Seq<Attempt>,
    w: Seq<Plan>,
    e: Option<CombinationError>,
)
    requires
        e is None ==> w.len() == s.len(),
        e is Some ==> w.len() < s.len() && s[w.len() as int] == Err::<Plan, CombinationError>(
            e->Some_0,
        ),
        forall|i: int| 0 <= i < w.len() ==> #[trigger] s[i] == Ok::<Plan, CombinationError>(w[i]),
    ensures
        scan(s) == (w, e),
    decreases s.len(),
{
    if s.len() > 0 {
        let init = s.drop_last();
        if e is Some && w.len() < init.len() {
            lemma_scan_from_entries(init, w, e);
        } else if e is Some {
            lemma_scan_from_entries(init, w, None);
        } else {
            assert(w.drop_last().push(w.last()) =~= w);
            lemma_scan_from_entries(init, w.drop_last(), None);
        }
    }
}

/// Slot of the pair (`i`, `j`) of pool positions in a pair cache.
pub open spec fn cache_key(i: int, j: int) -> int {
    i * MAX_ITEMS + j
}

/// Every cached step is the cheaper merge of the two pool items it is filed under.
pub open spec fn cache_ok(pool: Seq<Item>, cache: Seq<Option<Step>>) -> bool {
    &&& cache.len() == MAX_ITEMS * MAX_ITEMS
    &&& forall|i: int, j: int|
        0 <= i < pool.len() && 0 <= j < pool.len() && (#[trigger] cache[cache_key(i, j)]) is Some
            ==> pair_plan(pool[i], pool[j]) == Ok::<Plan, CombinationError>(
            (seq![cache[cache_key(i, j)]->Some_0], cache[cache_key(i, j)]->Some_0.cost as int),
        )
}

/// The abstract plans of a list of branches.
pub open spec fn views(bs: Seq<Branch>) -> Seq<Plan> {
    bs.map_values(|b: Branch| b@)
}

/// Positions as integers.
pub open spec fn positions(idx: Seq<usize>) -> Seq<int> {
    idx.map_values(|i: usize| i as int)
}

/// `idx[pos[i]]` for each `i`.
fn compose(idx: &Vec<usize>, pos: &Vec<usize>, bound: usize) -> (r: Vec<usize>)
    requires
        forall|i: int| 0 <= i < pos@.len() ==> #[trigger] pos@[i] < idx@.len(),
        forall|i: int| 0 <= i < idx@.len() ==> #[trigger] idx@[i] < bound,
    ensures
        positions(r@) == positions(pos@).map_values(|p: int| positions(idx@)[p]),
        forall|i: int| 0 <= i < r@.len() ==> #[trigger] r@[i] < bound,
{
    let mut out: Vec<usize> = Vec::new();
    let mut i: usize = 0;
    while i < pos.len()
        invariant
            i <= pos@.len(),
            forall|k: int| 0 <= k < pos@.len() ==> #[trigger] pos@[k] < idx@.len(),
            out@.len() == i,
            forall|k: int| 0 <= k < i ==> #[trigger] out@[k] == idx@[pos@[k] as int],
        decreases pos@.len() - i,
    {
        out.push(idx[pos[i]]);
        i += 1;
    }
    assert(positions(out@) =~= positions(pos@).map_values(|p: int| positions(idx@)[p]));
    assert forall|k: int| 0 <= k < out@.len() implies #[trigger] out@[k] < bound by {
        assert(out@[k] == idx@[pos@[k] as int]);
    }
    out
}


/// Every left plan joined with every right plan, left-major, up to the first failure.
#[verifier::loop_isolation(false)]
fn join_all(
    left: &Vec<Item>,
    right: &Vec<Item>,
    lv: &Vec<Branch>,
    le: Option<CombinationError>,
    rv: &Vec<Branch>,
    re: Option<CombinationError>,
) -> (r: (Vec<Branch>, Option<CombinationError>))
    requires
        1 <= left@.len(),
        1 <= right@.len(),
        left@.len() + right@.len() <= MAX_ITEMS,
        plans(left@).len() >= 1,
        plans(right@).len() >= 1,
        scan(plans(left@)) == (views(lv@), le),
        scan(plans(right@)) == (views(rv@), re),
        forall|i: int| 0 <= i < lv@.len() ==> plan_fits(left@, #[trigger] lv@[i]@),
        forall|i: int| 0 <= i < rv@.len() ==> plan_fits(right@, #[trigger] rv@[i]@),
    ensures
        scan(pairs(left@, right@, plans(left@), plans(right@))) == (views(r.0@), r.1),
        forall|i: int| 0 <= i < r.0@.len() ==> plan_fits(left@ + right@, #[trigger] r.0@[i]@),
{
    let ghost ls = plans(left@);
    let ghost rs = plans(right@);
    let ghost blk = pairs(left@, right@, ls, rs);
    proof {
        lemma_scan_entries(ls);
        lemma_scan_entries(rs);
        lemma_pairs(left@, right@, ls, rs);
    }
    assert(views(lv@).len() == lv@.len() && views(rv@).len() == rv@.len());
    assert forall|i: int| 0 <= i < lv@.len() implies #[trigger] ls[i] == Ok::<Plan, CombinationError>(lv@[i]@) by {
        assert(views(lv@)[i] == lv@[i]@);
    }
    assert forall|i: int| 0 <= i < rv@.len() implies #[trigger] rs[i] == Ok::<Plan, CombinationError>(rv@[i]@) by {
        assert(views(rv@)[i] == rv@[i]@);
    }
    let mut out: Vec<Branch> = Vec::new();
    let mut a: usize = 0;
    while a < lv.len()
        invariant
            (re is Some ==> a == 0),
            a <= lv@.len(),
            out@.len() == a * rs.len(),
            forall|i: int| 0 <= i < out@.len() ==> #[trigger] blk[i] == Ok::<Plan, CombinationError>(out@[i]@),
            forall|i: int| 0 <= i < out@.len() ==> plan_fits(left@ + right@, #[trigger] out@[i]@),
        decreases lv@.len() - a,
    {
        let mut b: usize = 0;
        while b < rv.len()
            invariant
                a < lv@.len(),
                b <= rv@.len(),
                out@.len() == a * rs.len() + b,
                forall|i: int| 0 <= i < out@.len() ==> #[trigger] blk[i] == Ok::<Plan, CombinationError>(out@[i]@),
                forall|i: int| 0 <= i < out@.len() ==> plan_fits(left@ + right@, #[trigger] out@[i]@),
            decreases rv@.len() - b,
        {
            let res = join_branches(left, right, &lv[a], &rv[b]);
            proof {
                assert(a * rs.len() + b < ls.len() * rs.len()) by (nonlinear_arith)
                    requires
                        a < ls.len(),
                        b < rs.len(),
                ;
                assert(0 <= a * rs.len()) by (nonlinear_arith);
                assert(blk[a * rs.len() + b] == join(left@, right@, ls[a as int], rs[b as int]));
            }
            match res {
                Ok(branch) => {
                    out.push(branch);
                },
                Err(e) => {
                    proof {
                        lemma_scan_from_entries(blk, views(out@), Some(e));
                    }
                    return (out, Some(e));
                },
            }
            b += 1;
        }
        if let Some(e) = re {
            proof {
                assert(blk[(0 * rs.len() + rv@.len()) as int] == join(left@, right@, ls[0], rs[rv@.len() as int]));
                lemma_scan_from_entries(blk, views(out@), Some(e));
            }
            return (out, Some(e));
        }
        assert(out@.len() == (a + 1) * rs.len()) by (nonlinear_arith)
            requires
                out@.len() == a * rs.len() + rs.len(),
        ;
        a += 1;
    }
    if let Some(e) = le {
        proof {
            assert(lv@.len() * rs.len() + 0 < ls.len() * rs.len()) by (nonlinear_arith)
                requires
                    lv@.len() < ls.len(),
                    0 < rs.len(),
            ;
            assert(blk[(lv@.len() * rs.len() + 0) as int] == join(left@, right@, ls[lv@.len() as int], rs[0]));
            lemma_scan_from_entries(blk, views(out@), Some(e));
        }
        return (out, Some(e));
    }
    proof {
        lemma_scan_from_entries(blk, views(out@), None);
    }
    (out, None)
}

/// The one plan for two pool items, through the pair cache.
fn expand_pair(pool: &Vec<Item>, idx: &Vec<usize>, cache: &mut Vec<Option<Step>>) -> (r: (
    Vec<Branch>,
    Option<CombinationError>,
))
    requires
        idx@.len() == 2,
        pool@.len() <= MAX_ITEMS,
        forall|i: int| 0 <= i < idx@.len() ==> #[trigger] idx@[i] < pool@.len(),
        leaves_fit(pool@),
        cache_ok(pool@, old(cache)@),
    ensures
        cache_ok(pool@, final(cache)@),
        scan(plans(pick(pool@, positions(idx@)))) == (views(r.0@), r.1),
        forall|i: int| 0 <= i < r.0@.len() ==> plan_fits(pick(pool@, positions(idx@)), #[trigger] r.0@[i]@),
{
    let items = pick_items(pool, idx);
    let ghost whole = plans(items@);
    proof {
        lemma_pick_fits(pool@, positions(idx@));
    }
    let i = idx[0];
    let j = idx[1];
    proof {
        assert(items@[0].prior_work_penalty <= LEAF_PENALTY_LIMIT);
        assert(items@[1].prior_work_penalty <= LEAF_PENALTY_LIMIT);
        lemma_tables(1, 1);
        lemma_pair_fits(items@[0], items@[1]);
    }
    let key = i * MAX_ITEMS + j;
    let pair = match cache[key] {
        Some(step) => {
            assert(cache@[cache_key(i as int, j as int)] == Some(step));
            let mut steps = steps_new();
            steps_push(&mut steps, step);
            assert(steps_of(steps) =~= seq![step]);
            Branch { steps, total_cost: step.cost }
        },
        None => match Branch::of_two(pool[i], pool[j]) {
            Ok(b) => {
                let step = b.step(0);
                cache.set(key, Some(step));
                assert(b@.0 =~= seq![step]);
                b
            },
            Err(e) => {
                proof {
                    lemma_scan_from_entries(whole, Seq::empty(), Some(e));
                }
                return (Vec::new(), Some(e));
            },
        },
    };
    proof {
        assert(pair@.0.last() == pair@.0[0]);
        assert(items@[0] == pool@[i as int]);
        assert(items@[1] == pool@[j as int]);
        assert(pair_plan(items@[0], items@[1]) == Ok::<Plan, CombinationError>(pair@));
    }
    let mut out: Vec<Branch> = Vec::new();
    out.push(pair);
    proof {
        assert(views(out@)[0] == pair@);
        assert(whole[0] == pair_plan(items@[0], items@[1]));
        lemma_scan_from_entries(whole, views(out@), None);
    }
    return (out, None);
}

#[verifier::loop_isolation(false)]
#[verifier::rlimit(100)]
/// Every plan for the pool items at `idx`, built in search order with every
/// sub-list's plans held in full, up to the first failure; merges of two
/// items of the pool itself are taken from and kept in `cache`.
fn expand(pool: &Vec<Item>, idx: &Vec<usize>, cache: &mut Vec<Option<Step>>) -> (r: (
    Vec<Branch>,
    Option<CombinationError>,
))
    requires
        1 <= idx@.len() <= MAX_ITEMS,
        pool@.len() <= MAX_ITEMS,
        forall|i: int| 0 <= i < idx@.len() ==> #[trigger] idx@[i] < pool@.len(),
        leaves_fit(pool@),
        cache_ok(pool@, old(cache)@),
    ensures
        cache_ok(pool@, final(cache)@),
        scan(plans(pick(pool@, positions(idx@)))) == (views(r.0@), r.1),
        forall|i: int| 0 <= i < r.0@.len() ==> plan_fits(pick(pool@, positions(idx@)), #[trigger] r.0@[i]@),
    decreases idx@.len(),
{
    let n = idx.len();
    let items = pick_items(pool, idx);
    let ghost whole = plans(items@);
    proof {
        lemma_pick_fits(pool@, positions(idx@));
    }
    if n == 1 {
        let mut out: Vec<Branch> = Vec::new();
        out.push(Branch::single());
        proof {
            lemma_scan_from_entries(whole, views(out@), None);
        }
        return (out, None);
    }
    if n == 2 {
        return expand_pair(pool, idx, cache);
    }
    proof {
        lemma_mask_limit(n as nat);
    }
    let limit: u32 = 1u32 << ((n - 1) as u32);
    let mut out: Vec<Branch> = Vec::new();
    let mut mask: u32 = 1;
    assert(views(out@) + scan(whole).0 =~= scan(whole).0);
    while mask < limit
        invariant
            3 <= n <= MAX_ITEMS,
            n == idx@.len() == items@.len(),
            pool@.len() <= MAX_ITEMS,
            forall|i: int| 0 <= i < idx@.len() ==> #[trigger] idx@[i] < pool@.len(),
            leaves_fit(pool@),
            leaves_fit(items@),
            items@ == pick(pool@, positions(idx@)),
            whole == plans(items@),
            whole == plans_from(items@, 1),
            cache_ok(pool@, cache@),
            limit == mask_limit(n as nat),
            2 <= limit <= 512,
            1 <= mask <= limit,
            scan(whole) == (views(out@) + scan(plans_from(items@, mask)).0, scan(
                plans_from(items@, mask),
            ).1),
            forall|i: int| 0 <= i < out@.len() ==> plan_fits(items@, #[trigger] out@[i]@),
        decreases limit - mask,
    {
        proof {
            lemma_split_sizes(mask, n as nat);
            lemma_side(mask, n as nat, true);
            lemma_side(mask, n as nat, false);
        }
        let left_pos = side_indices(mask, n, true);
        let right_pos = side_indices(mask, n, false);
        proof {
            assert forall|i: int| 0 <= i < left_pos@.len() implies #[trigger] left_pos@[i] < idx@.len() by {
                assert(left_pos@.map_values(|x: usize| x as int)[i] == side(mask, n as nat, true)[i]);
            }
            assert forall|i: int| 0 <= i < right_pos@.len() implies #[trigger] right_pos@[i] < idx@.len() by {
                assert(right_pos@.map_values(|x: usize| x as int)[i] == side(mask, n as nat, false)[i]);
            }
        }
        let left_idx = compose(idx, &left_pos, pool.len());
        let right_idx = compose(idx, &right_pos, pool.len());
        proof {
            lemma_pick_pick(pool@, positions(idx@), positions(left_pos@));
            lemma_pick_pick(pool@, positions(idx@), positions(right_pos@));
            assert(positions(left_pos@) == side(mask, n as nat, true));
            assert(positions(right_pos@) == side(mask, n as nat, false));
        }
        let (lv, le) = expand(pool, &left_idx, cache);
        let (rv, re) = expand(pool, &right_idx, cache);
        let left = pick_items(pool, &left_idx);
        let right = pick_items(pool, &right_idx);
        let ghost ls = plans(left@);
        let ghost rs = plans(right@);
        let ghost blk = pairs(left@, right@, ls, rs);
        proof {
            assert(left@ == left_of(items@, mask));
            assert(right@ == right_of(items@, mask));
            assert(plans_from(items@, mask) == blk + plans_from(items@, (mask + 1) as u32));
            lemma_scan_entries(ls);
            lemma_scan_entries(rs);
            lemma_pairs(left@, right@, ls, rs);
            lemma_plans_nth(left@);
            lemma_plans_nth(right@);
            lemma_count_positive(left@.len());
            lemma_count_positive(right@.len());
        }
        let (mut joined, failure) = join_all(&left, &right, &lv, le, &rv, re);
        let ghost rest = plans_from(items@, (mask + 1) as u32);
        let ghost before = out@;
        let ghost w = joined@;
        out.append(&mut joined);
        proof {
            lemma_scan_append(blk, rest);
            assert(views(out@) =~= views(before) + views(w));
            assert forall|i: int| 0 <= i < out@.len() implies plan_fits(items@, #[trigger] out@[i]@) by {
                if i >= before.len() {
                    assert(out@[i] == w[i - before.len()]);
                }
            }
        }
        if let Some(e) = failure {
            return (out, Some(e));
        }
        mask += 1;
    }
    assert(views(out@) + Seq::<Plan>::empty() =~= views(out@));
    (out, None)
}

/// Every plan for `items` in search order, all held at once; merges of two
/// of the given items are computed once and reused. Fails with the first
/// failure met in search order.
pub fn enumerate(items: &[Item]) -> (r: Result<Vec<Branch>, CombinationError>)
    requires
        1 <= items@.len() <= MAX_ITEMS,
        leaves_fit(items@),
    ensures
        match settle(plans(items@)) {
            Err(e) => r == Err::<Vec<Branch>, CombinationError>(e),
            Ok(ps) => r matches Ok(v) && views(v@) == ps,
        },
{
    let pool = copy_items(items);
    let mut idx: Vec<usize> = Vec::new();
    let mut i: usize = 0;
    while i < pool.len()
        invariant
            i <= pool@.len(),
            idx@.len() == i,
            forall|k: int| 0 <= k < i ==> #[trigger] idx@[k] == k,
        decreases pool@.len() - i,
    {
        idx.push(i);
        i += 1;
    }
    let mut cache: Vec<Option<Step>> = Vec::new();
    let mut k: usize = 0;
    while k < MAX_ITEMS * MAX_ITEMS
        invariant
            k <= MAX_ITEMS * MAX_ITEMS,
            cache@.len() == k,
            forall|j: int| 0 <= j < k ==> #[trigger] cache@[j] is None,
        decreases MAX_ITEMS * MAX_ITEMS - k,
    {
        cache.push(None);
        k += 1;
    }
    assert(pick(pool@, positions(idx@)) =~= pool@);
    let (found, failure) = expand(&pool, &idx, &mut cache);
    proof {
        lemma_scan_settle(plans(pool@));
    }
    match failure {
        Some(e) => Err(e),
        None => Ok(found),
    }
}

/// The eager listing and the lazy numbering of plans agree: for `n` items
/// there are `count(n)` plans, and the `k`-th plan listed is plan number
/// `k`, so both strategies yield the same plans in the same order and in
/// particular the same multiset of total costs.
pub proof fn lemma_strategies_agree(items: Seq<Item>)
    requires
        1 <= items.len() <= MAX_ITEMS,
    ensures
        plans(items) == Seq::new(count(items.len()), |k: int| nth(items, k as nat)),
{
    lemma_plans_nth(items);
    assert(plans(items) =~= Seq::new(count(items.len()), |k: int| nth(items, k as nat)));
}

} // verus!
