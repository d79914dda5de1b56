use anvil_planner::{Branch, CombinationError, Enchantment, EnchantmentKind, Enchantments, Item, ItemKind};

fn item(kind: ItemKind, penalty: u16, list: &[(EnchantmentKind, u8)]) -> Item {
    let mut e = Enchantments::empty();
    for (k, l) in list {
        e = e.set(Enchantment::new(*k, *l).unwrap());
    }
    Item { enchantments: e, prior_work_penalty: penalty, kind }
}

#[test]
fn disjoint_merge_sums_levels_times_multipliers() {
    let a = item(ItemKind::Sword, 1, &[(EnchantmentKind::Looting, 2)]);
    let b = item(
        ItemKind::Sword,
        3,
        &[(EnchantmentKind::Sharpness, 3), (EnchantmentKind::Unbreaking, 1)],
    );
    let step = Item::combine(a, b).unwrap();
    // 1 + 3 penalties, Sharpness 3 x 1, Unbreaking 1 x 2.
    assert_eq!(step.cost, 1 + 3 + 3 + 2);
    assert_eq!(step.result.prior_work_penalty, 7);
    assert_eq!(step.result.kind, ItemKind::Sword);
    assert_eq!(step.result.enchantments.get_level(EnchantmentKind::Looting), 2);
    assert_eq!(step.result.enchantments.get_level(EnchantmentKind::Sharpness), 3);
    assert_eq!(step.result.enchantments.get_level(EnchantmentKind::Unbreaking), 1);
    assert_eq!(step.target, a);
    assert_eq!(step.sacrifice, b);
}

#[test]
fn book_multiplier_applies_to_books() {
    let sword = item(ItemKind::Sword, 0, &[]);
    let book = item(ItemKind::Book, 0, &[(EnchantmentKind::Looting, 3)]);
    let step = Item::combine(sword, book).unwrap();
    // Looting: item multiplier 4, book multiplier 2.
    assert_eq!(step.cost, 6);
}

#[test]
fn inapplicable_book_changes_nothing() {
    let sword = item(ItemKind::Sword, 2, &[(EnchantmentKind::Sharpness, 4)]);
    let book = item(ItemKind::Book, 1, &[(EnchantmentKind::Efficiency, 5)]);
    let step = Item::combine(sword, book).unwrap();
    assert_eq!(step.result.enchantments, sword.enchantments);
    assert_eq!(step.cost, 3);
}

#[test]
fn clash_costs_one_and_stops_transfer() {
    let sword = item(ItemKind::Sword, 0, &[(EnchantmentKind::Sharpness, 5)]);
    let book = item(
        ItemKind::Book,
        0,
        &[(EnchantmentKind::Smite, 3), (EnchantmentKind::Looting, 2)],
    );
    let step = Item::combine(sword, book).unwrap();
    assert_eq!(step.cost, 1);
    assert_eq!(step.result.enchantments, sword.enchantments);
    assert_eq!(step.result.enchantments.get_level(EnchantmentKind::Looting), 0);
}

#[test]
fn clash_after_transfer_keeps_earlier_ones() {
    // Unbreaking (kind 1) transfers before Smite (kind 18) clashes.
    let sword = item(ItemKind::Sword, 0, &[(EnchantmentKind::Sharpness, 5)]);
    let other = item(
        ItemKind::Sword,
        0,
        &[(EnchantmentKind::Unbreaking, 2), (EnchantmentKind::Smite, 3), (EnchantmentKind::Looting, 1)],
    );
    let step = Item::combine(sword, other).unwrap();
    assert_eq!(step.cost, 2 * 2 + 1);
    assert_eq!(step.result.enchantments.get_level(EnchantmentKind::Unbreaking), 2);
    assert_eq!(step.result.enchantments.get_level(EnchantmentKind::Smite), 0);
    assert_eq!(step.result.enchantments.get_level(EnchantmentKind::Looting), 0);
}

#[test]
fn shared_kind_levels() {
    let s = |l: u8| item(ItemKind::Sword, 0, &[(EnchantmentKind::Sharpness, l)]);
    let equal = Item::combine(s(3), s(3)).unwrap();
    assert_eq!(equal.result.enchantments.get_level(EnchantmentKind::Sharpness), 4);
    assert_eq!(equal.cost, 4);
    let higher = Item::combine(s(2), s(4)).unwrap();
    assert_eq!(higher.result.enchantments.get_level(EnchantmentKind::Sharpness), 4);
    assert_eq!(higher.cost, 4);
    let lower = Item::combine(s(4), s(2)).unwrap();
    assert_eq!(lower.result.enchantments.get_level(EnchantmentKind::Sharpness), 4);
    assert_eq!(lower.cost, 4);
    let at_max = Item::combine(s(5), s(5)).unwrap();
    assert_eq!(at_max.result.enchantments.get_level(EnchantmentKind::Sharpness), 5);
    assert_eq!(at_max.cost, 5);
}

#[test]
fn different_kinds_are_refused() {
    let sword = item(ItemKind::Sword, 0, &[]);
    let axe = item(ItemKind::Axe, 0, &[]);
    match Item::combine(sword, axe) {
        Err(CombinationError::IncompatibleItems { target, sacrifice }) => {
            assert_eq!(target, ItemKind::Sword);
            assert_eq!(sacrifice, ItemKind::Axe);
        }
        Ok(_) => panic!("a sword cannot take an axe"),
    }
    match Branch::of_two(sword, axe) {
        Err(CombinationError::IncompatibleItems { target, sacrifice }) => {
            assert_eq!(target, ItemKind::Axe);
            assert_eq!(sacrifice, ItemKind::Sword);
        }
        Ok(_) => panic!("neither direction works"),
    }
    // A book never takes an item as sacrifice, but the item takes the book.
    let book = item(ItemKind::Book, 0, &[(EnchantmentKind::Unbreaking, 3)]);
    assert!(Item::combine(book, sword).is_err());
    assert!(Item::combine(sword, book).is_ok());
}

#[test]
fn of_two_keeps_cheaper_direction() {
    let first = item(ItemKind::Book, 0, &[(EnchantmentKind::Sharpness, 5)]);
    let second = item(ItemKind::Book, 0, &[(EnchantmentKind::Protection, 4)]);
    let b = Branch::of_two(first, second).unwrap();
    assert_eq!(b.len(), 1);
    assert_eq!(b.total_cost, 4);
    let step = b.step(0);
    assert_eq!(step.target, first);
    assert_eq!(step.cost, 4);
    // Equal costs keep the first item as target.
    let x = item(ItemKind::Book, 0, &[(EnchantmentKind::Sharpness, 2)]);
    let y = item(ItemKind::Book, 0, &[(EnchantmentKind::Power, 2)]);
    let tie = Branch::of_two(x, y).unwrap();
    assert_eq!(tie.step(0).target, x);
    assert_eq!(tie.total_cost, 2);
}
