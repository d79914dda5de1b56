use anvil_planner::{Enchantment, EnchantmentKind, Enchantments};

fn ench(kind: EnchantmentKind, level: u8) -> Enchantment {
    Enchantment::new(kind, level).unwrap()
}

#[test]
fn profile_round_trip() {
    let pairs = [
        (EnchantmentKind::Mending, 1u8),
        (EnchantmentKind::Sharpness, 5),
        (EnchantmentKind::QuickCharge, 3),
        (EnchantmentKind::Protection, 4),
    ];
    let mut e = Enchantments::empty();
    for (k, l) in pairs.iter() {
        e = e.set_level(*k, *l);
    }
    for i in 0..39 {
        let k = EnchantmentKind::from_index(i).unwrap();
        let expected = pairs.iter().find(|p| p.0 == k).map(|p| p.1).unwrap_or(0);
        assert_eq!(e.get_level(k), expected);
        assert_eq!(e.has(k), expected > 0);
    }
    assert_eq!(e.size(), 4);
}

#[test]
fn profile_set_replaces_level() {
    let e = Enchantments::empty()
        .set(ench(EnchantmentKind::Efficiency, 2))
        .set(ench(EnchantmentKind::Efficiency, 5));
    assert_eq!(e.get_level(EnchantmentKind::Efficiency), 5);
    assert_eq!(e.size(), 1);
    let cleared = e.set_level(EnchantmentKind::Efficiency, 0);
    assert_eq!(cleared, Enchantments::empty());
    assert_eq!(cleared.size(), 0);
}

#[test]
fn profile_packing_and_listing() {
    let e = Enchantments::empty()
        .set(ench(EnchantmentKind::Unbreaking, 3))
        .set(ench(EnchantmentKind::QuickCharge, 2));
    // Unbreaking is kind 1, QuickCharge kind 38: three bits each.
    assert_eq!(e.raw(), (3u128 << 3) | (2u128 << 114));
    let present = e.iter_contained();
    assert_eq!(present, vec![ench(EnchantmentKind::Unbreaking, 3), ench(EnchantmentKind::QuickCharge, 2)]);
    let all = e.iter();
    assert_eq!(all.len(), 39);
    assert_eq!(all[0], ench(EnchantmentKind::Mending, 0));
    assert_eq!(all[1], ench(EnchantmentKind::Unbreaking, 3));
    assert_eq!(e.get_enchantment(EnchantmentKind::QuickCharge), ench(EnchantmentKind::QuickCharge, 2));
    let kinds = e.to_mask();
    assert!(kinds.has(EnchantmentKind::Unbreaking));
    assert!(kinds.has(EnchantmentKind::QuickCharge));
    assert!(!kinds.has(EnchantmentKind::Mending));
}
