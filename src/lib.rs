//! Cheapest order of anvil merges for a handful of enchanted items.
//!
//! `bits` packs item-kind sets, enchantment-kind sets and level profiles into
//! integers; `enchantments` is the catalog of enchantment kinds; `anvil`
//! merges two items; `topology` numbers the ways of splitting a list in two;
//! `search` describes every merge plan for a list of items; `branches` and
//! `eager` produce those plans, one at a time or all at once, and pick the
//! cheapest; `laws` states what the merge rules guarantee.

use vstd::prelude::*;

pub mod anvil;
pub mod bits;
pub mod branches;
pub mod eager;
pub mod enchantments;
pub mod items;
pub mod laws;
pub mod search;
pub mod topology;

pub use anvil::{Branch, CombinationError, Item, Step, MAX_ITEMS};
pub use bits::{EnchantmentMask, Enchantments, ItemMask};
pub use branches::{best, branch_iterator, find_best, plan_counts, BranchIter};
pub use eager::enumerate;
pub use enchantments::{Enchantment, EnchantmentKind};
pub use items::ItemKind;
pub use search::LEAF_PENALTY_LIMIT;
pub use topology::topologies;

verus! {

} // verus!
