use anvil_planner::{ItemKind, ItemMask};

#[test]
fn from_slice() {
    assert_eq!(
        ItemMask::from_slice(&[ItemKind::Sword, ItemKind::Shield, ItemKind::Axe]),
        ItemMask::empty()
            .add(ItemKind::Sword)
            .add(ItemKind::Shield)
            .add(ItemKind::Axe)
    );
}

#[test]
fn add() {
    assert_eq!(
        ItemMask::empty().add(ItemKind::Sword).add(ItemKind::Boots).0,
        (1 << ItemKind::Sword as u32) | (1 << ItemKind::Boots as u32)
    );
}

#[test]
fn remove() {
    assert_eq!(ItemMask::empty().remove(ItemKind::Sword), ItemMask::empty());

    assert_eq!(
        ItemMask::empty()
            .add(ItemKind::Boots)
            .add(ItemKind::Compass)
            .remove(ItemKind::Boots),
        ItemMask::empty().add(ItemKind::Compass)
    );
}

#[test]
fn item_mask_has_and_iter() {
    let mask = ItemMask::empty().add(ItemKind::Helmet).add(ItemKind::RecoveryCompass);
    assert!(mask.has(ItemKind::Helmet));
    assert!(mask.has(ItemKind::RecoveryCompass));
    assert!(!mask.has(ItemKind::Book));
    let all = mask.iter();
    assert_eq!(all.len(), 24);
    assert_eq!(all[0], (ItemKind::Helmet, true));
    assert_eq!(all[20], (ItemKind::Book, false));
    assert_eq!(all[23], (ItemKind::RecoveryCompass, true));
    assert_eq!(ItemKind::from_index(9), Some(ItemKind::Sword));
    assert_eq!(ItemKind::from_index(24), None);
}
