use vstd::prelude::*;

use arrayvec::ArrayVec;

use crate::bits::Enchantments;
use crate::enchantments::{
    kind_at, lemma_kind_at, lemma_kind_at_index, EnchantmentKind, ENCHANTMENT_KIND_COUNT,
};
use crate::items::ItemKind;

verus! {

/// Why two items cannot be merged.
#[derive(Clone, Copy, PartialEq, Eq, Structural, Debug)]
pub enum CombinationError {
    IncompatibleItems { target: ItemKind, sacrifice: ItemKind },
}

/// An item on or off the anvil.
#[derive(Clone, Copy, PartialEq, Eq, Structural, Debug)]
pub struct Item {
    pub enchantments: Enchantments,
    pub prior_work_penalty: u16,
    pub kind: ItemKind,
}

/// One merge: `sacrifice` is consumed into `target`, giving `result` for `cost`.
#[derive(Clone, Copy, PartialEq, Eq, Structural, Debug)]
pub struct Step {
    pub target: Item,
    pub sacrifice: Item,
    pub result: Item,
    pub cost: u16,
}

/// Bound on what the enchantments of one merge can cost: at most level 7
/// times multiplier 8 for each kind, plus one for a clash.
pub const MAX_TRANSFER_COST: u16 = 2185;

/// Cost of one level of `kind` when it comes from `sacrifice`.
pub open spec fn rate(sacrifice: Item, kind: EnchantmentKind) -> int {
    if sacrifice.kind == ItemKind::Book {
        kind.book_multiplier() as int
    } else {
        kind.item_multiplier() as int
    }
}

/// Scanning the target's enchantments from position `j` in catalog order,
/// the position of the first one that clashes with `kind` or is `kind`
/// itself; `ENCHANTMENT_KIND_COUNT` when there is none.
pub open spec fn first_hit(target: Seq<u8>, kind: EnchantmentKind, j: int) -> int
    decreases ENCHANTMENT_KIND_COUNT - j,
{
    if j < 0 || j >= ENCHANTMENT_KIND_COUNT {
        ENCHANTMENT_KIND_COUNT as int
    } else if target[j] > 0 && (kind.clashes_with(kind_at(j)) || j == kind.index()) {
        j
    } else {
        first_hit(target, kind, j + 1)
    }
}

/// Level that results when a sacrifice level meets the same kind on the target.
pub open spec fn merged_level(target_level: u8, sacrifice_level: u8, max_level: u8) -> u8 {
    if target_level < sacrifice_level {
        sacrifice_level
    } else if target_level == sacrifice_level && target_level < max_level {
        (target_level + 1) as u8
    } else {
        target_level
    }
}

/// Carries the sacrifice's enchantments at catalog positions `i` and above
/// onto `acc`, with `cost` spent so far; a clash adds one and ends the merge.
pub open spec fn transfer(
    target: Item,
    sacrifice: Item,
    i: int,
    acc: Enchantments,
    cost: int,
) -> (Enchantments, int)
    decreases ENCHANTMENT_KIND_COUNT - i,
{
    if i < 0 || i >= ENCHANTMENT_KIND_COUNT {
        (acc, cost)
    } else {
        let kind = kind_at(i);
        let level = sacrifice.enchantments@[i];
        if level == 0 || !kind.applies_to(target.kind) {
            transfer(target, sacrifice, i + 1, acc, cost)
        } else {
            let hit = first_hit(target.enchantments@, kind, 0);
            if hit == i {
                let new_level = merged_level(
                    target.enchantments@[i],
                    level,
                    kind.max_level(),
                );
                transfer(
                    target,
                    sacrifice,
                    i + 1,
                    acc.with_level(kind, new_level),
                    cost + new_level * rate(sacrifice, kind),
                )
            } else if hit < ENCHANTMENT_KIND_COUNT {
                (acc, cost + 1)
            } else {
                transfer(
                    target,
                    sacrifice,
                    i + 1,
                    acc.with_level(kind, level),
                    cost + level * rate(sacrifice, kind),
                )
            }
        }
    }
}

/// Whether `sacrifice` may be merged into `target`: same kind, or a book.
pub open spec fn mergeable(target: Item, sacrifice: Item) -> bool {
    target.kind == sacrifice.kind || sacrifice.kind == ItemKind::Book
}

/// The penalty that the product of a merge carries.
pub open spec fn merged_penalty(target: Item, sacrifice: Item) -> int {
    2 * if target.prior_work_penalty >= sacrifice.prior_work_penalty {
        target.prior_work_penalty as int
    } else {
        sacrifice.prior_work_penalty as int
    } + 1
}

/// The merge of `sacrifice` into `target`.
pub open spec fn merge(target: Item, sacrifice: Item) -> Result<Step, CombinationError> {
    if !mergeable(target, sacrifice) {
        Err(CombinationError::IncompatibleItems { target: target.kind, sacrifice: sacrifice.kind })
    } else {
        let (enchantments, cost) = transfer(target, sacrifice, 0, target.enchantments, 0);
        Ok(
            Step {
                target,
                sacrifice,
                result: Item {
                    enchantments,
                    prior_work_penalty: merged_penalty(target, sacrifice) as u16,
                    kind: target.kind,
                },
                cost: (target.prior_work_penalty + sacrifice.prior_work_penalty + cost) as u16,
            },
        )
    }
}

/// The merge stays within `u16`: penalties small enough that neither the
/// product's penalty nor the cost can overflow.
pub open spec fn merge_fits(target: Item, sacrifice: Item) -> bool {
    &&& merged_penalty(target, sacrifice) <= u16::MAX
    &&& target.prior_work_penalty + sacrifice.prior_work_penalty + MAX_TRANSFER_COST <= u16::MAX
}

/// What `transfer` adds to the cost is at most 56 per remaining position, plus one.
pub proof fn lemma_transfer_cost(
    target: Item,
    sacrifice: Item,
    i: int,
    acc: Enchantments,
    cost: int,
)
    requires
        0 <= i <= ENCHANTMENT_KIND_COUNT,
    ensures
        cost <= transfer(target, sacrifice, i, acc, cost).1 <= cost + 56 * (
        ENCHANTMENT_KIND_COUNT - i) + 1,
    decreases ENCHANTMENT_KIND_COUNT - i,
{
    if i < ENCHANTMENT_KIND_COUNT {
        let kind = kind_at(i);
        lemma_kind_at_index(i);
        sacrifice.enchantments.lemma_view();
        target.enchantments.lemma_view();
        let level = sacrifice.enchantments@[i];
        let hit = first_hit(target.enchantments@, kind, 0);
        let new_level = merged_level(target.enchantments@[i], level, kind.max_level());
        assert(rate(sacrifice, kind) <= 8);
        assert(new_level * rate(sacrifice, kind) <= 56) by (nonlinear_arith)
            requires
                new_level <= 7,
                0 <= rate(sacrifice, kind) <= 8,
        ;
        assert(level * rate(sacrifice, kind) <= 56) by (nonlinear_arith)
            requires
                level <= 7,
                0 <= rate(sacrifice, kind) <= 8,
        ;
        lemma_transfer_cost(target, sacrifice, i + 1, acc, cost);
        lemma_transfer_cost(
            target,
            sacrifice,
            i + 1,
            acc.with_level(kind, new_level),
            cost + new_level * rate(sacrifice, kind),
        );
        lemma_transfer_cost(
            target,
            sacrifice,
            i + 1,
            acc.with_level(kind, level),
            cost + level * rate(sacrifice, kind),
        );
    }
}

impl Item {
    /// Merges `sacrifice` into `target` on the anvil.
    pub fn combine(target: Item, sacrifice: Item) -> (r: Result<Step, CombinationError>)
        requires
            merge_fits(target, sacrifice),
        ensures
            r == merge(target, sacrifice),
    {
        if target.kind != sacrifice.kind && sacrifice.kind != ItemKind::Book {
            return Err(
                CombinationError::IncompatibleItems {
                    target: target.kind,
                    sacrifice: sacrifice.kind,
                },
            );
        }
        let ghost goal = transfer(target, sacrifice, 0, target.enchantments, 0);
        let base: u16 = target.prior_work_penalty + sacrifice.prior_work_penalty;
        let higher = if target.prior_work_penalty >= sacrifice.prior_work_penalty {
            target.prior_work_penalty
        } else {
            sacrifice.prior_work_penalty
        };
        let mut enchantments = target.enchantments;
        let mut cost: u16 = base;
        let mut stopped = false;
        let mut i: u32 = 0;
        proof {
            lemma_transfer_cost(target, sacrifice, 0, target.enchantments, 0);
            target.enchantments.lemma_view();
            sacrifice.enchantments.lemma_view();
        }
        while i < ENCHANTMENT_KIND_COUNT && !stopped
            invariant
                i <= ENCHANTMENT_KIND_COUNT,
                base == target.prior_work_penalty + sacrifice.prior_work_penalty,
                base + MAX_TRANSFER_COST <= u16::MAX,
                goal == transfer(target, sacrifice, 0, target.enchantments, 0),
                target.enchantments@.len() == ENCHANTMENT_KIND_COUNT,
                sacrifice.enchantments@.len() == ENCHANTMENT_KIND_COUNT,
                mergeable(target, sacrifice),
                stopped ==> goal == (enchantments, cost - base),
                !stopped ==> goal == transfer(target, sacrifice, i as int, enchantments, cost - base),
                !stopped ==> base <= cost <= base + 56 * i,
                stopped ==> cost <= base + MAX_TRANSFER_COST,
            decreases ENCHANTMENT_KIND_COUNT - i,
        {
            let kind = EnchantmentKind::from_index(i).unwrap();
            let level = sacrifice.enchantments.get_level(kind);
            let ghost acc0 = enchantments;
            let ghost spent0 = cost - base;
            proof {
                lemma_kind_at(kind);
                target.enchantments.lemma_view();
                sacrifice.enchantments.lemma_view();
            }
            let applicable = kind.applicable_to().has(target.kind);
            assert(applicable == kind.applies_to(target.kind));
            assert(kind == kind_at(i as int));
            assert(level == sacrifice.enchantments@[i as int]);
            if level != 0 && applicable {
                // Scan the target for a clash or for the same kind.
                let incompatible = kind.incompatible_with();
                let mut j: u32 = 0;
                let mut clash = false;
                let mut matched = false;
                while j < ENCHANTMENT_KIND_COUNT && !clash && !matched
                    invariant
                        j <= ENCHANTMENT_KIND_COUNT,
                        incompatible@ == kind.incompatible_kinds().to_set(),
                        target.enchantments@.len() == ENCHANTMENT_KIND_COUNT,
                        !clash && !matched ==> first_hit(target.enchantments@, kind, 0)
                            == first_hit(target.enchantments@, kind, j as int),
                        clash ==> first_hit(target.enchantments@, kind, 0) < ENCHANTMENT_KIND_COUNT
                            && first_hit(target.enchantments@, kind, 0) != kind.index(),
                        matched ==> first_hit(target.enchantments@, kind, 0) == kind.index(),
                    decreases ENCHANTMENT_KIND_COUNT - j,
                {
                    let other = EnchantmentKind::from_index(j).unwrap();
                    let other_level = target.enchantments.get_level(other);
                    proof {
                        lemma_kind_at(other);
                    }
                    if other_level > 0 {
                        if incompatible.has(other) {
                            clash = true;
                        } else if other == kind {
                            matched = true;
                        }
                    }
                    j += 1;
                }
                proof {
                    lemma_transfer_cost(
                        target,
                        sacrifice,
                        i + 1,
                        enchantments.with_level(kind, level),
                        (cost - base) + level * rate(sacrifice, kind),
                    );
                }
                let multiplier = if sacrifice.kind == ItemKind::Book {
                    kind.book_multiplier()
                } else {
                    kind.item_multiplier()
                };
                let ghost hit = first_hit(target.enchantments@, kind, 0);
                if clash {
                    assert(transfer(target, sacrifice, i as int, acc0, spent0) == (acc0, spent0 + 1));
                    cost += 1;
                    stopped = true;
                } else if matched {
                    assert(hit == i);
                    let target_level = target.enchantments.get_level(kind);
                    let mut result_level = target_level;
                    if result_level < level {
                        result_level = level;
                    } else if result_level == level && result_level < kind.max_level() {
                        result_level += 1;
                    }
                    proof {
                        lemma_transfer_cost(
                            target,
                            sacrifice,
                            i + 1,
                            enchantments.with_level(kind, result_level),
                            (cost - base) + result_level * rate(sacrifice, kind),
                        );
                        use_type_invariant(&target.enchantments);
                        target.enchantments.lemma_wf();
                        use_type_invariant(&sacrifice.enchantments);
                        sacrifice.enchantments.lemma_wf();
                    }
                    assert(multiplier * result_level <= 56) by (nonlinear_arith)
                        requires
                            multiplier <= 8,
                            result_level <= 7,
                    ;
                    cost += (multiplier * result_level) as u16;
                    enchantments = enchantments.set_level(kind, result_level);
                    assert(result_level == merged_level(
                        target.enchantments@[i as int],
                        level,
                        kind.max_level(),
                    ));
                    assert(multiplier == rate(sacrifice, kind));
                    assert(transfer(target, sacrifice, i as int, acc0, spent0) == transfer(
                        target,
                        sacrifice,
                        i + 1,
                        acc0.with_level(kind, result_level),
                        spent0 + result_level * rate(sacrifice, kind),
                    ));
                } else {
                    assert(multiplier * level <= 56) by (nonlinear_arith)
                        requires
                            multiplier <= 8,
                            level <= 7,
                    ;
                    proof {
                        use_type_invariant(&sacrifice.enchantments);
                        sacrifice.enchantments.lemma_wf();
                    }
                    cost += (multiplier * level) as u16;
                    enchantments = enchantments.set_level(kind, level);
                    assert(hit == ENCHANTMENT_KIND_COUNT);
                    assert(multiplier == rate(sacrifice, kind));
                    assert(transfer(target, sacrifice, i as int, acc0, spent0) == transfer(
                        target,
                        sacrifice,
                        i + 1,
                        acc0.with_level(kind, level),
                        spent0 + level * rate(sacrifice, kind),
                    ));
                }
            }
            assert(!stopped ==> transfer(target, sacrifice, i as int, acc0, spent0) == transfer(
                target,
                sacrifice,
                i + 1,
                enchantments,
                cost - base,
            ));
            i += 1;
        }
        Ok(
            Step {
                target,
                sacrifice,
                result: Item {
                    enchantments,
                    prior_work_penalty: higher * 2 + 1,
                    kind: target.kind,
                },
                cost,
            },
        )
    }
}

/// Most items a plan combines; a plan of `n` items has `n - 1` steps.
pub const MAX_ITEMS: usize = 10;

#[verifier::external_type_specification]
#[verifier::external_body]
#[verifier::reject_recursive_types(T)]
pub struct ExArrayVec<T, const CAP: usize>(ArrayVec<T, CAP>);

/// The steps an `ArrayVec` holds, in order.
pub uninterp spec fn steps_of(v: ArrayVec<Step, MAX_ITEMS>) -> Seq<Step>;

/// Relies on `ArrayVec::new_const`: the vector starts empty.
#[verifier::external_body]
pub(crate) fn steps_new() -> (r: ArrayVec<Step, MAX_ITEMS>)
    ensures
        steps_of(r) == Seq::<Step>::empty(),
{
    ArrayVec::new_const()
}

/// Relies on `ArrayVec::push`: appends at the end, and panics only when full.
#[verifier::external_body]
pub(crate) fn steps_push(v: &mut ArrayVec<Step, MAX_ITEMS>, step: Step)
    requires
        steps_of(*old(v)).len() < MAX_ITEMS,
    ensures
        steps_of(*final(v)) == steps_of(*old(v)).push(step),
{
    v.push(step)
}

/// Relies on `ArrayVec::len`: the number of elements held.
#[verifier::external_body]
pub(crate) fn steps_len(v: &ArrayVec<Step, MAX_ITEMS>) -> (r: usize)
    ensures
        r == steps_of(*v).len(),
{
    v.len()
}

/// Relies on `ArrayVec::as_slice`: the elements in order.
#[verifier::external_body]
pub(crate) fn steps_get(v: &ArrayVec<Step, MAX_ITEMS>, i: usize) -> (r: Step)
    requires
        i < steps_of(*v).len(),
    ensures
        r == steps_of(*v)[i as int],
{
    v.as_slice()[i]
}

/// A plan in the abstract: its steps in execution order and their total cost.
pub type Plan = (Seq<Step>, int);

/// An ordered plan of merges and its total cost.
#[derive(Debug)]
pub struct Branch {
    pub steps: ArrayVec<Step, MAX_ITEMS>,
    pub total_cost: u16,
}

impl View for Branch {
    type V = Plan;

    open spec fn view(&self) -> Plan {
        (steps_of(self.steps), self.total_cost as int)
    }
}

/// The abstract plan of a branch result.
pub open spec fn plan_of(r: Result<Branch, CombinationError>) -> Result<Plan, CombinationError> {
    match r {
        Ok(b) => Ok(b@),
        Err(e) => Err(e),
    }
}

/// The plan that merges two items in the cheaper of the two directions;
/// `first` stays the target when both cost the same.
pub open spec fn pair_plan(first: Item, second: Item) -> Result<Plan, CombinationError> {
    match merge(first, second) {
        Ok(a) => match merge(second, first) {
            Ok(b) => if a.cost <= b.cost {
                Ok((seq![a], a.cost as int))
            } else {
                Ok((seq![b], b.cost as int))
            },
            Err(_) => Ok((seq![a], a.cost as int)),
        },
        Err(_) => match merge(second, first) {
            Ok(b) => Ok((seq![b], b.cost as int)),
            Err(e) => Err(e),
        },
    }
}

impl Branch {
    /// The plan of a single item: no steps, no cost.
    pub fn single() -> (r: Branch)
        ensures
            r@ == (Seq::<Step>::empty(), 0int),
    {
        Branch { steps: steps_new(), total_cost: 0 }
    }

    /// Merges two items in whichever direction costs less.
    pub fn of_two(first: Item, second: Item) -> (r: Result<Branch, CombinationError>)
        requires
            merge_fits(first, second),
        ensures
            plan_of(r) == pair_plan(first, second),
    {
        let first_with_second = Item::combine(first, second);
        let second_with_first = Item::combine(second, first);
        let best_step = match first_with_second {
            Ok(a) => match second_with_first {
                Ok(b) => if a.cost <= b.cost {
                    a
                } else {
                    b
                },
                Err(_) => a,
            },
            Err(_) => match second_with_first {
                Ok(b) => b,
                Err(e) => {
                    return Err(e);
                },
            },
        };
        let mut steps = steps_new();
        steps_push(&mut steps, best_step);
        Ok(Branch { steps, total_cost: best_step.cost })
    }

    /// Number of steps in the plan.
    pub fn len(&self) -> (r: usize)
        ensures
            r == self@.0.len(),
    {
        steps_len(&self.steps)
    }

    /// The step at position `i` of the plan.
    pub fn step(&self, i: usize) -> (r: Step)
        requires
            i < self@.0.len(),
        ensures
            r == self@.0[i as int],
    {
        steps_get(&self.steps, i)
    }
}

} // verus!
