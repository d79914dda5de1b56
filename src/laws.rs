use vstd::prelude::*;

use crate::anvil::{
    first_hit, lemma_transfer_cost, merge, merge_fits, merged_level, mergeable, pair_plan, rate,
    transfer, CombinationError, Item, Plan, Step,
};
use crate::bits::Enchantments;
use crate::enchantments::{kind_at, EnchantmentKind, lemma_kind_at, lemma_kind_at_index, ENCHANTMENT_KIND_COUNT};
use crate::items::ItemKind;
use crate::search::plans;

verus! {

/// What the sacrifice's enchantments at positions `i` and above are worth
/// when each is charged its level times its multiplier.
pub open spec fn enchantment_value(sacrifice: Item, i: int) -> int
    decreases ENCHANTMENT_KIND_COUNT - i,
{
    if i < 0 || i >= ENCHANTMENT_KIND_COUNT {
        0
    } else {
        sacrifice.enchantments@[i] * rate(sacrifice, kind_at(i)) + enchantment_value(sacrifice, i + 1)
    }
}

/// Every sacrifice enchantment applies to the target's kind, the target lacks
/// its kind, and none clashes with an enchantment of the target.
pub open spec fn disjoint(target: Item, sacrifice: Item) -> bool {
    &&& forall|j: int|
        0 <= j < ENCHANTMENT_KIND_COUNT && #[trigger] sacrifice.enchantments@[j] > 0 ==> kind_at(
            j,
        ).applies_to(target.kind) && target.enchantments@[j] == 0
    &&& forall|j: int, m: int|
        0 <= j < ENCHANTMENT_KIND_COUNT && 0 <= m < ENCHANTMENT_KIND_COUNT
            && #[trigger] sacrifice.enchantments@[j] > 0 && #[trigger] target.enchantments@[m] > 0
            ==> !kind_at(j).clashes_with(kind_at(m))
}

/// The scan finds nothing when no present enchantment of the target clashes
/// with `kind` or is `kind`.
proof fn lemma_no_hit(target: Seq<u8>, kind: crate::enchantments::EnchantmentKind, j: int)
    requires
        0 <= j <= ENCHANTMENT_KIND_COUNT,
        forall|m: int|
            j <= m < ENCHANTMENT_KIND_COUNT && target[m] > 0 ==> !kind.clashes_with(kind_at(m))
                && m != kind.index(),
    ensures
        first_hit(target, kind, j) == ENCHANTMENT_KIND_COUNT,
    decreases ENCHANTMENT_KIND_COUNT - j,
{
    if j < ENCHANTMENT_KIND_COUNT {
        lemma_no_hit(target, kind, j + 1);
    }
}

/// The scan stops at or before a present enchantment that clashes with `kind`,
/// and never at a position where the target has nothing.
proof fn lemma_hit_bound(target: Seq<u8>, kind: crate::enchantments::EnchantmentKind, j: int, m: int)
    requires
        0 <= j <= m < ENCHANTMENT_KIND_COUNT,
        target[m] > 0,
        kind.clashes_with(kind_at(m)),
    ensures
        j <= first_hit(target, kind, j) <= m,
        target[first_hit(target, kind, j)] > 0,
    decreases ENCHANTMENT_KIND_COUNT - j,
{
    if j < m && !(target[j] > 0 && (kind.clashes_with(kind_at(j)) || j == kind.index())) {
        lemma_hit_bound(target, kind, j + 1, m);
    }
}

/// Sacrifice enchantments that are absent or do not apply are passed over.
proof fn lemma_transfer_skips(target: Item, sacrifice: Item, i: int, acc: Enchantments, cost: int)
    requires
        0 <= i <= ENCHANTMENT_KIND_COUNT,
        forall|j: int|
            i <= j < ENCHANTMENT_KIND_COUNT ==> sacrifice.enchantments@[j] == 0 || !kind_at(
                j,
            ).applies_to(target.kind),
    ensures
        transfer(target, sacrifice, i, acc, cost) == (acc, cost),
    decreases ENCHANTMENT_KIND_COUNT - i,
{
    if i < ENCHANTMENT_KIND_COUNT {
        lemma_transfer_skips(target, sacrifice, i + 1, acc, cost);
    }
}

/// Merging two items of one kind whose enchantments all apply to that kind,
/// with no enchantment kind on both and no clashing pair between them, costs
/// the two prior work penalties plus each sacrifice enchantment's level times
/// its multiplier.
pub proof fn lemma_disjoint_merge_cost(target: Item, sacrifice: Item)
    requires
        target.kind == sacrifice.kind,
        merge_fits(target, sacrifice),
        disjoint(target, sacrifice),
    ensures
        merge(target, sacrifice) matches Ok(step) && step.cost == target.prior_work_penalty
            + sacrifice.prior_work_penalty + enchantment_value(sacrifice, 0),
{
    lemma_disjoint_transfer(target, sacrifice, 0, target.enchantments, 0);
    lemma_transfer_cost(target, sacrifice, 0, target.enchantments, 0);
}

proof fn lemma_disjoint_transfer(
    target: Item,
    sacrifice: Item,
    i: int,
    acc: Enchantments,
    cost: int,
)
    requires
        0 <= i <= ENCHANTMENT_KIND_COUNT,
        disjoint(target, sacrifice),
    ensures
        transfer(target, sacrifice, i, acc, cost).1 == cost + enchantment_value(sacrifice, i),
    decreases ENCHANTMENT_KIND_COUNT - i,
{
    if i < ENCHANTMENT_KIND_COUNT {
        let kind = kind_at(i);
        let level = sacrifice.enchantments@[i];
        lemma_kind_at_index(i);
        if level > 0 {
            assert(kind.applies_to(target.kind) && target.enchantments@[i] == 0);
            assert forall|m: int|
                0 <= m < ENCHANTMENT_KIND_COUNT && target.enchantments@[m] > 0 implies !kind.clashes_with(
                kind_at(m),
            ) && m != kind.index() by {
                assert(sacrifice.enchantments@[i] > 0);
            }
            lemma_no_hit(target.enchantments@, kind, 0);
            assert(transfer(target, sacrifice, i, acc, cost) == transfer(
                target,
                sacrifice,
                i + 1,
                acc.with_level(kind, level),
                cost + level * rate(sacrifice, kind),
            ));
            lemma_disjoint_transfer(
                target,
                sacrifice,
                i + 1,
                acc.with_level(kind, level),
                cost + level * rate(sacrifice, kind),
            );
        } else {
            assert(transfer(target, sacrifice, i, acc, cost) == transfer(target, sacrifice, i + 1, acc, cost));
            assert(level * rate(sacrifice, kind) == 0) by (nonlinear_arith)
                requires
                    level == 0,
            ;
            lemma_disjoint_transfer(target, sacrifice, i + 1, acc, cost);
        }
    }
}

/// Merging a book whose one enchantment does not apply to the target's kind
/// leaves the target's enchantments as they were and charges nothing for it:
/// the cost is the two prior work penalties.
pub proof fn lemma_inapplicable_book(target: Item, book: Item, i: int)
    requires
        book.kind == ItemKind::Book,
        merge_fits(target, book),
        0 <= i < ENCHANTMENT_KIND_COUNT,
        !kind_at(i).applies_to(target.kind),
        forall|j: int| 0 <= j < ENCHANTMENT_KIND_COUNT && j != i ==> book.enchantments@[j] == 0,
    ensures
        merge(target, book) matches Ok(step) && step.result.enchantments == target.enchantments
            && step.cost == target.prior_work_penalty + book.prior_work_penalty,
{
    lemma_transfer_skips(target, book, 0, target.enchantments, 0);
}

/// When the first sacrifice enchantment that applies to the target meets a
/// clashing enchantment on the target (and the target lacks its own kind),
/// the merge charges exactly one for the clash and carries nothing over: no
/// later sacrifice enchantment is transferred.
pub proof fn lemma_clash_ends_merge(target: Item, sacrifice: Item, i: int, m: int)
    requires
        mergeable(target, sacrifice),
        merge_fits(target, sacrifice),
        0 <= i < ENCHANTMENT_KIND_COUNT,
        0 <= m < ENCHANTMENT_KIND_COUNT,
        sacrifice.enchantments@[i] > 0,
        kind_at(i).applies_to(target.kind),
        target.enchantments@[i] == 0,
        target.enchantments@[m] > 0,
        kind_at(i).clashes_with(kind_at(m)),
        forall|j: int|
            0 <= j < i ==> sacrifice.enchantments@[j] == 0 || !kind_at(j).applies_to(target.kind),
    ensures
        merge(target, sacrifice) matches Ok(step) && step.result.enchantments == target.enchantments
            && step.cost == target.prior_work_penalty + sacrifice.prior_work_penalty + 1,
{
    lemma_kind_at_index(i);
    lemma_hit_bound(target.enchantments@, kind_at(i), 0, m);
    lemma_prefix_skips(target, sacrifice, 0, i);
}

/// Positions before `i` that are absent or inapplicable leave the transfer untouched.
proof fn lemma_prefix_skips(target: Item, sacrifice: Item, j: int, i: int)
    requires
        0 <= j <= i < ENCHANTMENT_KIND_COUNT,
        forall|x: int|
            0 <= x < i ==> sacrifice.enchantments@[x] == 0 || !kind_at(x).applies_to(target.kind),
    ensures
        transfer(target, sacrifice, j, target.enchantments, 0) == transfer(
            target,
            sacrifice,
            i,
            target.enchantments,
            0,
        ),
    decreases i - j,
{
    if j < i {
        lemma_prefix_skips(target, sacrifice, j + 1, i);
    }
}

/// Merging a sacrifice whose only enchantment is of a kind the target also
/// holds as its only enchantment: equal levels below the maximum go up by
/// one, a higher sacrifice level replaces the target's, a lower one leaves
/// the target's level; the resulting level is charged either way.
pub proof fn lemma_shared_kind(target: Item, sacrifice: Item, i: int)
    requires
        mergeable(target, sacrifice),
        merge_fits(target, sacrifice),
        0 <= i < ENCHANTMENT_KIND_COUNT,
        kind_at(i).applies_to(target.kind),
        target.enchantments@[i] > 0,
        sacrifice.enchantments@[i] > 0,
        target.enchantments@[i] < 8,
        sacrifice.enchantments@[i] < 8,
        forall|j: int|
            0 <= j < ENCHANTMENT_KIND_COUNT && j != i ==> target.enchantments@[j] == 0
                && sacrifice.enchantments@[j] == 0,
    ensures
        ({
            let old_level = target.enchantments@[i];
            let given = sacrifice.enchantments@[i];
            let new_level = merged_level(old_level, given, kind_at(i).max_level());
            &&& given == old_level && old_level < kind_at(i).max_level() ==> new_level == old_level + 1
            &&& given > old_level ==> new_level == given
            &&& given < old_level ==> new_level == old_level
            &&& merge(target, sacrifice) matches Ok(step) && step.result.enchantments@ == target.enchantments@.update(i, new_level)
                && step.cost == target.prior_work_penalty + sacrifice.prior_work_penalty + new_level * rate(sacrifice, kind_at(i))
        }),
{
    let kind = kind_at(i);
    lemma_kind_at_index(i);
    let new_level = merged_level(target.enchantments@[i], sacrifice.enchantments@[i], kind.max_level());
    lemma_prefix_skips_shared(target, sacrifice, 0, i);
    assert(first_hit(target.enchantments@, kind, 0) == i) by {
        lemma_first_hit_only(target.enchantments@, kind, 0, i);
    }
    target.enchantments.lemma_with_level(kind, new_level);
    lemma_transfer_skips(
        target,
        sacrifice,
        i + 1,
        target.enchantments.with_level(kind, new_level),
        new_level * rate(sacrifice, kind),
    );
    lemma_transfer_cost(target, sacrifice, 0, target.enchantments, 0);
}

proof fn lemma_prefix_skips_shared(target: Item, sacrifice: Item, j: int, i: int)
    requires
        0 <= j <= i < ENCHANTMENT_KIND_COUNT,
        forall|x: int| 0 <= x < ENCHANTMENT_KIND_COUNT && x != i ==> sacrifice.enchantments@[x] == 0,
    ensures
        transfer(target, sacrifice, j, target.enchantments, 0) == transfer(
            target,
            sacrifice,
            i,
            target.enchantments,
            0,
        ),
    decreases i - j,
{
    if j < i {
        lemma_prefix_skips_shared(target, sacrifice, j + 1, i);
    }
}

/// With `i` the only present position of the target, the scan for the kind
/// at `i` stops there.
proof fn lemma_first_hit_only(target: Seq<u8>, kind: crate::enchantments::EnchantmentKind, j: int, i: int)
    requires
        0 <= j <= i < ENCHANTMENT_KIND_COUNT,
        kind.index() == i,
        target[i] > 0,
        forall|x: int| 0 <= x < ENCHANTMENT_KIND_COUNT && x != i ==> target[x] == 0,
    ensures
        first_hit(target, kind, j) == i,
    decreases i - j,
{
    if j < i {
        lemma_first_hit_only(target, kind, j + 1, i);
    }
}

/// A single item has exactly one plan, with no steps and no cost; two items
/// have exactly one plan, of one step: the cheaper of the two merge
/// directions, the first item staying the target on a tie.
pub proof fn lemma_small_searches(x: Item, y: Item)
    ensures
        plans(seq![x]) == seq![Ok::<Plan, CombinationError>((Seq::<Step>::empty(), 0int))],
        plans(seq![x, y]) == seq![pair_plan(x, y)],
        pair_plan(x, y) matches Ok(p) ==> p.0.len() == 1 && p.1 == p.0[0].cost,
        merge(x, y) matches Ok(a) ==> (merge(y, x) matches Ok(b) ==> pair_plan(x, y) == Ok::<
            Plan,
            CombinationError,
        >((seq![if a.cost <= b.cost { a } else { b }], if a.cost <= b.cost { a.cost as int } else { b.cost as int }))),
{
}

/// The profile obtained from `start` by recording each (kind, level) pair in turn.
pub open spec fn record_all(start: Enchantments, pairs: Seq<(EnchantmentKind, u8)>) -> Enchantments
    decreases pairs.len(),
{
    if pairs.len() == 0 {
        start
    } else {
        record_all(start, pairs.drop_last()).with_level(pairs.last().0, pairs.last().1)
    }
}

/// The level that `pairs` gives `kind`: its last listed level, 0 when not listed.
pub open spec fn listed_level(pairs: Seq<(EnchantmentKind, u8)>, kind: EnchantmentKind) -> u8
    decreases pairs.len(),
{
    if pairs.len() == 0 {
        0
    } else if pairs.last().0 == kind {
        pairs.last().1
    } else {
        listed_level(pairs.drop_last(), kind)
    }
}

/// Encoding a list of (kind, level) pairs into the empty profile and reading
/// every kind back gives each listed kind its level and every other kind 0.
pub proof fn lemma_round_trip(start: Enchantments, pairs: Seq<(EnchantmentKind, u8)>)
    requires
        start@ == Seq::new(ENCHANTMENT_KIND_COUNT as nat, |i: int| 0u8),
        forall|i: int| 0 <= i < pairs.len() ==> (#[trigger] pairs[i]).1 <= pairs[i].0.max_level(),
    ensures
        forall|kind: EnchantmentKind| #[trigger] record_all(start, pairs)@[kind.index()] == listed_level(pairs, kind),
    decreases pairs.len(),
{
    if pairs.len() == 0 {
        assert forall|kind: EnchantmentKind| #[trigger] record_all(start, pairs)@[kind.index()] == listed_level(pairs, kind) by {
            lemma_kind_at(kind);
        }
    } else {
        let init = pairs.drop_last();
        assert forall|i: int| 0 <= i < init.len() implies (#[trigger] init[i]).1 <= init[i].0.max_level() by {
            assert(init[i] == pairs[i]);
        }
        lemma_round_trip(start, init);
        let (k, l) = pairs.last();
        assert(pairs[pairs.len() - 1] == pairs.last());
        assert(k.max_level() <= 5);
        record_all(start, init).lemma_with_level(k, l);
        record_all(start, init).lemma_view();
        assert(record_all(start, pairs) == record_all(start, init).with_level(k, l));
        assert forall|kind: EnchantmentKind| #[trigger] record_all(start, pairs)@[kind.index()] == listed_level(pairs, kind) by {
            lemma_kind_at(kind);
            lemma_kind_at(k);
            assert(listed_level(pairs, kind) == if k == kind { l } else { listed_level(init, kind) });
            assert(record_all(start, init)@[kind.index()] == listed_level(init, kind));
        }
    }
}

} // verus!
