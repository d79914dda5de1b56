use vstd::prelude::*;

use crate::anvil::{plan_of, steps_new, steps_of, steps_push, Branch, CombinationError, Item, Plan, MAX_ITEMS};
use crate::search::{
    count, count_bound, count_from, join, lemma_count_bound, lemma_count_positive,
    lemma_nth_fits, lemma_pair_fits, lemma_pick_fits, lemma_plans_nth, lemma_tables, leaves_fit,
    nth, nth_from, outcome, pick, plan_fits, plans, Attempt, LEAF_PENALTY_LIMIT,
};
use crate::topology::{
    lemma_mask_limit, lemma_side, lemma_split_sizes, mask_limit, side, side_indices,
};

verus! {

/// `counts[m]` is the number of plans of `m` leaves, for every `m` up to `MAX_ITEMS`.
pub open spec fn count_table(counts: Seq<u64>) -> bool {
    &&& counts.len() == MAX_ITEMS + 1
    &&& forall|m: int| 1 <= m <= MAX_ITEMS ==> #[trigger] counts[m] == count(m as nat)
}

/// The number of plans of `m` leaves, for every `m` up to `MAX_ITEMS`.
pub fn plan_counts() -> (r: Vec<u64>)
    ensures
        count_table(r@),
{
    let mut counts: Vec<u64> = Vec::new();
    counts.push(1);
    counts.push(1);
    counts.push(1);
    let mut n: usize = 3;
    while n <= MAX_ITEMS
        invariant
            3 <= n <= MAX_ITEMS + 1,
            counts@.len() == n,
            forall|m: int| 1 <= m < n ==> #[trigger] counts@[m] == count(m as nat),
        decreases MAX_ITEMS + 1 - n,
    {
        proof {
            lemma_mask_limit(n as nat);
            lemma_count_bound(n as nat);
        }
        let limit: u32 = 1u32 << ((n - 1) as u32);
        let mut total: u64 = 0;
        let mut mask: u32 = 1;
        while mask < limit
            invariant
                3 <= n <= MAX_ITEMS,
                counts@.len() == n,
                forall|m: int| 1 <= m < n ==> #[trigger] counts@[m] == count(m as nat),
                limit == mask_limit(n as nat),
                2 <= limit <= 512,
                1 <= mask <= limit,
                total + count_from(n as nat, mask) == count(n as nat),
                count(n as nat) <= count_bound(MAX_ITEMS as nat),
            decreases limit - mask,
        {
            proof {
                lemma_split_sizes(mask, n as nat);
                lemma_side(mask, n as nat, true);
            }
            let left = side_indices(mask, n, true);
            let a = left.len();
            let b = n - a;
            let term = counts[a] * counts[b];
            total = total + term;
            mask += 1;
        }
        counts.push(total);
        n += 1;
    }
    counts
}

/// The items at the positions `idx`, in that order.
pub fn pick_items(items: &Vec<Item>, idx: &Vec<usize>) -> (r: Vec<Item>)
    requires
        forall|i: int| 0 <= i < idx@.len() ==> #[trigger] idx@[i] < items@.len(),
    ensures
        r@ == pick(items@, idx@.map_values(|i: usize| i as int)),
{
    let mut out: Vec<Item> = Vec::new();
    let mut i: usize = 0;
    while i < idx.len()
        invariant
            i <= idx@.len(),
            forall|j: int| 0 <= j < idx@.len() ==> #[trigger] idx@[j] < items@.len(),
            out@ == pick(items@, idx@.map_values(|x: usize| x as int)).subrange(0, i as int),
        decreases idx@.len() - i,
    {
        out.push(items[idx[i]]);
        assert(out@ =~= pick(items@, idx@.map_values(|x: usize| x as int)).subrange(0, i + 1));
        i += 1;
    }
    assert(out@ =~= pick(items@, idx@.map_values(|x: usize| x as int)));
    out
}

/// The item that the plan `branch` over `items` ends with.
fn outcome_of(items: &Vec<Item>, branch: &Branch) -> (r: Item)
    requires
        items@.len() >= 1,
    ensures
        r == outcome(items@, branch@),
{
    let len = branch.len();
    if len == 0 {
        items[0]
    } else {
        branch.step(len - 1).result
    }
}

/// Finishes a left and a right plan with the cheaper merge of their outcomes.
pub(crate) fn join_branches(left: &Vec<Item>, right: &Vec<Item>, l: &Branch, r: &Branch) -> (res: Result<
    Branch,
    CombinationError,
>)
    requires
        1 <= left@.len(),
        1 <= right@.len(),
        left@.len() + right@.len() <= MAX_ITEMS,
        plan_fits(left@, l@),
        plan_fits(right@, r@),
    ensures
        plan_of(res) == join(left@, right@, Ok(l@), Ok(r@)),
        res matches Ok(b) ==> plan_fits(left@ + right@, b@),
{
    let first = outcome_of(left, l);
    let second = outcome_of(right, r);
    proof {
        lemma_tables(left@.len(), right@.len());
        lemma_pair_fits(first, second);
    }
    let last = match Branch::of_two(first, second) {
        Ok(b) => b,
        Err(e) => {
            return Err(e);
        },
    };
    let final_step = last.step(0);
    let mut steps = steps_new();
    let nl = l.len();
    let mut i: usize = 0;
    while i < nl
        invariant
            i <= nl,
            nl == l@.0.len(),
            nl < MAX_ITEMS,
            steps_of(steps) == l@.0.subrange(0, i as int),
        decreases nl - i,
    {
        steps_push(&mut steps, l.step(i));
        assert(steps_of(steps) =~= l@.0.subrange(0, i + 1));
        i += 1;
    }
    let nr = r.len();
    let mut j: usize = 0;
    while j < nr
        invariant
            j <= nr,
            nr == r@.0.len(),
            nl == l@.0.len(),
            nl + nr + 1 < MAX_ITEMS,
            steps_of(steps) == l@.0 + r@.0.subrange(0, j as int),
        decreases nr - j,
    {
        steps_push(&mut steps, r.step(j));
        assert(steps_of(steps) =~= l@.0 + r@.0.subrange(0, j + 1));
        j += 1;
    }
    steps_push(&mut steps, final_step);
    assert(steps_of(steps) =~= l@.0 + r@.0 + last@.0);
    let total_cost = l.total_cost + r.total_cost + last.total_cost;
    let res = Branch { steps, total_cost };
    proof {
        let pp = last@;
        assert((l@.0 + r@.0 + pp.0).last() == pp.0[0]);
    }
    Ok(res)
}

/// Plan number `k` for `items`, built directly from its number.
pub fn nth_branch(items: &Vec<Item>, k: u64, counts: &Vec<u64>) -> (r: Result<Branch, CombinationError>)
    requires
        1 <= items@.len() <= MAX_ITEMS,
        leaves_fit(items@),
        k < count(items@.len()),
        count_table(counts@),
    ensures
        plan_of(r) == nth(items@, k as nat),
        r matches Ok(b) ==> plan_fits(items@, b@),
    decreases items@.len(),
{
    let n = items.len();
    proof {
        lemma_nth_fits(items@, k as nat);
    }
    if n == 1 {
        return Ok(Branch::single());
    }
    if n == 2 {
        proof {
            assert(items@[0].prior_work_penalty <= LEAF_PENALTY_LIMIT);
            assert(items@[1].prior_work_penalty <= LEAF_PENALTY_LIMIT);
            lemma_tables(1, 1);
        }
        return Branch::of_two(items[0], items[1]);
    }
    proof {
        lemma_mask_limit(n as nat);
    }
    let limit: u32 = 1u32 << ((n - 1) as u32);
    let mut mask: u32 = 1;
    let mut rest: u64 = k;
    while mask < limit
        invariant
            3 <= n <= MAX_ITEMS,
            n == items@.len(),
            leaves_fit(items@),
            count_table(counts@),
            limit == mask_limit(n as nat),
            2 <= limit <= 512,
            1 <= mask <= limit,
            rest < count_from(n as nat, mask),
            nth(items@, k as nat) == nth_from(items@, mask, rest as nat),
        decreases limit - mask,
    {
        proof {
            lemma_split_sizes(mask, n as nat);
            lemma_side(mask, n as nat, true);
            lemma_side(mask, n as nat, false);
            lemma_count_bound(side(mask, n as nat, true).len());
            lemma_count_bound(side(mask, n as nat, false).len());
            lemma_count_bound(n as nat);
            crate::search::lemma_count_from_small(n as nat, mask);
        }
        let left_idx = side_indices(mask, n, true);
        let right_idx = side_indices(mask, n, false);
        proof {
            assert forall|i: int| 0 <= i < left_idx@.len() implies #[trigger] left_idx@[i] < items@.len() by {
                assert(left_idx@.map_values(|x: usize| x as int)[i] == side(mask, n as nat, true)[i]);
            }
            assert forall|i: int| 0 <= i < right_idx@.len() implies #[trigger] right_idx@[i] < items@.len() by {
                assert(right_idx@.map_values(|x: usize| x as int)[i] == side(mask, n as nat, false)[i]);
            }
        }
        let per_left = counts[right_idx.len()];
        let block = counts[left_idx.len()] * per_left;
        if rest < block {
            let left = pick_items(items, &left_idx);
            let right = pick_items(items, &right_idx);
            proof {
                lemma_pick_fits(items@, side(mask, n as nat, true));
                lemma_pick_fits(items@, side(mask, n as nat, false));
            }
            let a = rest / per_left;
            let b = rest % per_left;
            assert(a < count(left@.len()) && b < count(right@.len())) by (nonlinear_arith)
                requires
                    per_left >= 1,
                    rest < count(left@.len()) * per_left,
                    per_left == count(right@.len()),
                    a == rest / per_left,
                    b == rest % per_left,
            ;
            let l = match nth_branch(&left, a, counts) {
                Ok(x) => x,
                Err(e) => {
                    return Err(e);
                },
            };
            let r = match nth_branch(&right, b, counts) {
                Ok(x) => x,
                Err(e) => {
                    return Err(e);
                },
            };
            let res = join_branches(&left, &right, &l, &r);
            proof {
                assert(left@ + right@ =~= left@ + right@);
            }
            return res;
        }
        rest = rest - block;
        mask += 1;
    }
    Ok(Branch::single())
}

/// Every plan in order, or the first failure met in that order.
pub open spec fn settle(s: Seq<Attempt>) -> Result<Seq<Plan>, CombinationError>
    decreases s.len(),
{
    if s.len() == 0 {
        Ok(Seq::empty())
    } else {
        match settle(s.drop_last()) {
            Err(e) => Err(e),
            Ok(ps) => match s.last() {
                Ok(p) => Ok(ps.push(p)),
                Err(e) => Err(e),
            },
        }
    }
}

/// Total cost of each plan.
pub open spec fn costs(ps: Seq<Plan>) -> Seq<int> {
    ps.map_values(|p: Plan| p.1)
}

/// Position of the cheapest entry, scanning left to right and replacing the
/// best only on a strictly lower cost.
pub open spec fn first_cheapest(costs: Seq<int>) -> int
    decreases costs.len(),
{
    if costs.len() <= 1 {
        0
    } else {
        let i = first_cheapest(costs.drop_last());
        if costs.last() < costs[i] {
            costs.len() - 1
        } else {
            i
        }
    }
}

/// The first cheapest entry is a minimum, and every entry before it costs
/// strictly more.
pub proof fn lemma_first_cheapest(costs: Seq<int>)
    requires
        costs.len() > 0,
    ensures
        0 <= first_cheapest(costs) < costs.len(),
        forall|j: int| 0 <= j < costs.len() ==> costs[first_cheapest(costs)] <= #[trigger] costs[j],
        forall|j: int| 0 <= j < first_cheapest(costs) ==> costs[first_cheapest(costs)] < #[trigger] costs[j],
    decreases costs.len(),
{
    if costs.len() > 1 {
        let init = costs.drop_last();
        lemma_first_cheapest(init);
        let i = first_cheapest(init);
        assert forall|j: int| 0 <= j < init.len() implies init[j] == costs[j] by {}
        assert forall|j: int| 0 <= j < costs.len() implies costs[first_cheapest(costs)] <= #[trigger] costs[j] by {
            if j < init.len() {
                assert(init[i] <= init[j]);
            }
        }
        assert forall|j: int| 0 <= j < first_cheapest(costs) implies costs[first_cheapest(costs)] < #[trigger] costs[j] by {
            if first_cheapest(costs) == i {
                assert(init[i] < init[j]);
            } else {
                assert(init[i] <= init[j]);
            }
        }
    }
}

/// A stream of plans for a list of items, produced one at a time in search
/// order; it ends after the last plan or after the first failure.
pub struct BranchIter {
    items: Vec<Item>,
    counts: Vec<u64>,
    position: u64,
    finished: bool,
}

impl View for BranchIter {
    /// The items, how many plans were handed out, and whether a failure ended the stream.
    type V = (Seq<Item>, nat, bool);

    closed spec fn view(&self) -> (Seq<Item>, nat, bool) {
        (self.items@, self.position as nat, self.finished)
    }
}

impl BranchIter {
    #[verifier::type_invariant]
    pub closed spec fn inv(self) -> bool {
        &&& 1 <= self.items@.len() <= MAX_ITEMS
        &&& leaves_fit(self.items@)
        &&& count_table(self.counts@)
        &&& self.position <= count(self.items@.len())
    }

    /// The next plan, or `None` once all plans were handed out or one failed.
    pub fn next(&mut self) -> (r: Option<Result<Branch, CombinationError>>)
        ensures
            final(self)@.0 == old(self)@.0,
            old(self)@.2 || old(self)@.1 >= count(old(self)@.0.len()) ==> r is None && final(self)@
                == old(self)@,
            !(old(self)@.2 || old(self)@.1 >= count(old(self)@.0.len())) ==> (r matches Some(res)
                && plan_of(res) == nth(old(self)@.0, old(self)@.1) && final(self)@.1 == old(self)@.1
                + 1 && final(self)@.2 == res is Err),
    {
        proof {
            use_type_invariant(&*self);
        }
        let total = self.counts[self.items.len()];
        if self.finished || self.position >= total {
            return None;
        }
        let res = nth_branch(&self.items, self.position, &self.counts);
        self.position = self.position + 1;
        if res.is_err() {
            self.finished = true;
        }
        Some(res)
    }
}

/// Copies the items of a slice.
pub(crate) fn copy_items(items: &[Item]) -> (r: Vec<Item>)
    ensures
        r@ == items@,
{
    let mut out: Vec<Item> = Vec::new();
    let mut i: usize = 0;
    while i < items.len()
        invariant
            i <= items@.len(),
            out@ == items@.subrange(0, i as int),
        decreases items@.len() - i,
    {
        out.push(items[i]);
        assert(out@ =~= items@.subrange(0, i + 1));
        i += 1;
    }
    assert(out@ =~= items@);
    out
}

/// The plans for `items`, produced lazily: only the current plan is held.
pub fn branch_iterator(items: &[Item]) -> (r: BranchIter)
    requires
        1 <= items@.len() <= MAX_ITEMS,
        leaves_fit(items@),
    ensures
        r@ == (items@, 0nat, false),
{
    BranchIter { items: copy_items(items), counts: plan_counts(), position: 0, finished: false }
}

/// The first of the cheapest branches, or `None` when there is none.
pub fn best(branches: &[Branch]) -> (r: Option<&Branch>)
    ensures
        r is None <==> branches@.len() == 0,
        r matches Some(b) ==> *b == branches@[first_cheapest(
            branches@.map_values(|b: Branch| b.total_cost as int),
        )],
{
    if branches.len() == 0 {
        return None;
    }
    let ghost all = branches@.map_values(|b: Branch| b.total_cost as int);
    let mut best_index: usize = 0;
    let mut i: usize = 1;
    while i < branches.len()
        invariant
            1 <= i <= branches@.len(),
            all == branches@.map_values(|b: Branch| b.total_cost as int),
            best_index == first_cheapest(all.subrange(0, i as int)),
            best_index < i,
        decreases branches@.len() - i,
    {
        assert(all.subrange(0, i + 1).drop_last() =~= all.subrange(0, i as int));
        if branches[i].total_cost < branches[best_index].total_cost {
            best_index = i;
        }
        i += 1;
    }
    assert(all.subrange(0, branches@.len() as int) =~= all);
    Some(&branches[best_index])
}

/// A failure in a prefix is the failure of the whole list.
pub proof fn lemma_settle_prefix(s: Seq<Attempt>, k: int)
    requires
        0 <= k <= s.len(),
        settle(s.subrange(0, k)) is Err,
    ensures
        settle(s) == settle(s.subrange(0, k)),
    decreases s.len(),
{
    if k < s.len() {
        assert(s.drop_last().subrange(0, k) =~= s.subrange(0, k));
        lemma_settle_prefix(s.drop_last(), k);
    } else {
        assert(s.subrange(0, k) =~= s);
    }
}

/// The cheapest plan for `items`, found by walking the plans lazily and
/// keeping only the best one so far; the first failure met ends the search.
pub fn find_best(items: &[Item]) -> (r: Result<Branch, CombinationError>)
    requires
        1 <= items@.len() <= MAX_ITEMS,
        leaves_fit(items@),
    ensures
        match settle(plans(items@)) {
            Err(e) => r == Err::<Branch, CombinationError>(e),
            Ok(ps) => r matches Ok(b) && b@ == ps[first_cheapest(costs(ps))],
        },
{
    let ghost s = plans(items@);
    proof {
        lemma_plans_nth(items@);
        lemma_count_bound(items@.len());
    }
    let counts = plan_counts();
    let total = counts[items.len()];
    let mut iter = branch_iterator(items);
    let mut best: Option<Branch> = None;
    let mut k: u64 = 0;
    while k < total
        invariant
            total == count(items@.len()),
            s == plans(items@),
            s.len() == total,
            forall|j: nat| j < count(items@.len()) ==> #[trigger] s[j as int] == nth(items@, j),
            k <= total,
            iter@ == (items@, k as nat, false),
            settle(s.subrange(0, k as int)) is Ok,
            best is None <==> k == 0,
            best matches Some(b) ==> b@ == settle(s.subrange(0, k as int))->Ok_0[first_cheapest(
                costs(settle(s.subrange(0, k as int))->Ok_0),
            )],
            settle(s.subrange(0, k as int))->Ok_0.len() == k,
        decreases total - k,
    {
        let ghost prefix = s.subrange(0, k as int);
        let ghost next_prefix = s.subrange(0, k + 1);
        assert(next_prefix.drop_last() =~= prefix);
        assert(next_prefix.last() == nth(items@, k as nat));
        match iter.next() {
            Some(Ok(b)) => {
                let ghost ps = settle(prefix)->Ok_0;
                let ghost grown = ps.push(b@);
                assert(settle(next_prefix) == Ok::<Seq<Plan>, CombinationError>(grown));
                assert(costs(grown).drop_last() =~= costs(ps));
                proof {
                    if k > 0 {
                        lemma_first_cheapest(costs(ps));
                    }
                }
                let replace = match &best {
                    None => true,
                    Some(current) => b.total_cost < current.total_cost,
                };
                if replace {
                    best = Some(b);
                }
            },
            Some(Err(e)) => {
                proof {
                    lemma_settle_prefix(s, k + 1);
                }
                return Err(e);
            },
            None => {
                assert(false);
            },
        }
        k += 1;
    }
    assert(s.subrange(0, total as int) =~= s);
    match best {
        Some(b) => Ok(b),
        None => {
            proof {
                lemma_count_positive(items@.len());
            }
            Err(CombinationError::IncompatibleItems { target: items[0].kind, sacrifice: items[0].kind })
        },
    }
}

} // verus!
