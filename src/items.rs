use vstd::prelude::*;

verus! {

/// The kinds of items an anvil can work on; `Book` is the carrier that any
/// item accepts as a sacrifice.
#[derive(Clone, Copy, PartialEq, Eq, Structural, Debug)]
pub enum ItemKind {
    Helmet,
    Chestplate,
    Leggings,
    Boots,
    Elytra,
    Axe,
    Pickaxe,
    Shovel,
    Hoe,
    Sword,
    Bow,
    Crossbow,
    Trident,
    Shield,
    Shears,
    FishingRod,
    FlintAndSteel,
    CarrotOnAStick,
    WarpedFungusOnAStick,
    Compass,
    Book,
    CarvedPumpkin,
    Head,
    RecoveryCompass,
}

/// Number of item kinds; every kind's index is below it.
pub const ITEM_KIND_COUNT: u32 = 24;

impl ItemKind {
    pub const LAST: ItemKind = ItemKind::RecoveryCompass;

    /// Position of the kind in declaration order.
    pub open spec fn index(self) -> int {
        self as int
    }

    /// The kind at position `i` of the declaration order, if there is one.
    pub fn from_index(i: u32) -> (r: Option<ItemKind>)
        ensures
            i < ITEM_KIND_COUNT <==> r is Some,
            r matches Some(k) ==> k.index() == i,
    {
        match i {
            0 => Some(ItemKind::Helmet),
            1 => Some(ItemKind::Chestplate),
            2 => Some(ItemKind::Leggings),
            3 => Some(ItemKind::Boots),
            4 => Some(ItemKind::Elytra),
            5 => Some(ItemKind::Axe),
            6 => Some(ItemKind::Pickaxe),
            7 => Some(ItemKind::Shovel),
            8 => Some(ItemKind::Hoe),
            9 => Some(ItemKind::Sword),
            10 => Some(ItemKind::Bow),
            11 => Some(ItemKind::Crossbow),
            12 => Some(ItemKind::Trident),
            13 => Some(ItemKind::Shield),
            14 => Some(ItemKind::Shears),
            15 => Some(ItemKind::FishingRod),
            16 => Some(ItemKind::FlintAndSteel),
            17 => Some(ItemKind::CarrotOnAStick),
            18 => Some(ItemKind::WarpedFungusOnAStick),
            19 => Some(ItemKind::Compass),
            20 => Some(ItemKind::Book),
            21 => Some(ItemKind::CarvedPumpkin),
            22 => Some(ItemKind::Head),
            23 => Some(ItemKind::RecoveryCompass),
            _ => None,
        }
    }
}

} // verus!
