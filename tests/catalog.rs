use anvil_planner::{Enchantment, EnchantmentKind, EnchantmentMask, ItemKind};

#[test]
fn book_multiplier_halves_item_multiplier() {
    assert_eq!(EnchantmentKind::Mending.item_multiplier(), 4);
    assert_eq!(EnchantmentKind::Mending.book_multiplier(), 2);
    assert_eq!(EnchantmentKind::Protection.item_multiplier(), 1);
    assert_eq!(EnchantmentKind::Protection.book_multiplier(), 1);
    assert_eq!(EnchantmentKind::CurseOfBinding.item_multiplier(), 8);
    assert_eq!(EnchantmentKind::CurseOfBinding.book_multiplier(), 4);
    assert_eq!(EnchantmentKind::Unbreaking.book_multiplier(), 1);
    for i in 0..39 {
        let k = EnchantmentKind::from_index(i).unwrap();
        let m = k.item_multiplier();
        let expected = if m == 1 { 1 } else { m / 2 };
        assert_eq!(k.book_multiplier(), expected);
    }
}

#[test]
fn catalog_lookups() {
    assert_eq!(EnchantmentKind::Sharpness.max_level(), 5);
    assert_eq!(EnchantmentKind::Mending.max_level(), 2);
    assert_eq!(EnchantmentKind::QuickCharge.max_level(), 3);
    assert!(EnchantmentKind::Sharpness.applicable_to().has(ItemKind::Sword));
    assert!(EnchantmentKind::Sharpness.applicable_to().has(ItemKind::Book));
    assert!(!EnchantmentKind::Efficiency.applicable_to().has(ItemKind::Sword));
    assert!(EnchantmentKind::Sharpness.incompatible_with().has(EnchantmentKind::Smite));
    assert!(!EnchantmentKind::Sharpness.incompatible_with().has(EnchantmentKind::Looting));
    assert_eq!(EnchantmentKind::Unbreaking.incompatible_with(), EnchantmentMask::empty());
    assert_eq!(EnchantmentKind::from_index(38), Some(EnchantmentKind::QuickCharge));
    assert_eq!(EnchantmentKind::from_index(39), None);
}

#[test]
fn enchantment_new_checks_level() {
    let e = Enchantment::new(EnchantmentKind::Unbreaking, 3).unwrap();
    assert_eq!(e.kind(), EnchantmentKind::Unbreaking);
    assert_eq!(e.level(), 3);
    assert!(Enchantment::new(EnchantmentKind::Unbreaking, 4).is_none());
}

#[test]
fn enchantment_mask_operations() {
    let m = EnchantmentMask::from_slice(&[EnchantmentKind::Riptide, EnchantmentKind::Mending]);
    assert!(m.has(EnchantmentKind::Riptide));
    assert!(m.has(EnchantmentKind::Mending));
    assert!(!m.has(EnchantmentKind::Loyalty));
    let m2 = m.remove(EnchantmentKind::Mending);
    assert!(!m2.has(EnchantmentKind::Mending));
    assert_eq!(m2, EnchantmentMask::empty().add(EnchantmentKind::Riptide));
    let all = m.iter();
    assert_eq!(all.len(), 39);
    assert_eq!(all[0], (EnchantmentKind::Mending, true));
    assert_eq!(all[1], (EnchantmentKind::Unbreaking, false));
}
