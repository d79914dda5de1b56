use vstd::prelude::*;

use crate::bits::{EnchantmentMask, ItemMask};
use crate::items::ItemKind;

verus! {

/// One enchantment: a kind with a level between 0 and the kind's maximum.
#[derive(Clone, Copy, PartialEq, Eq, Structural, Debug)]
pub struct Enchantment {
    kind: EnchantmentKind,
    level: u8,
}

impl View for Enchantment {
    type V = (EnchantmentKind, u8);

    closed spec fn view(&self) -> (EnchantmentKind, u8) {
        (self.kind, self.level)
    }
}

impl Enchantment {
    #[verifier::type_invariant]
    pub closed spec fn level_in_range(self) -> bool {
        self.level <= self.kind.max_level()
    }

    /// The level of an enchantment never exceeds its kind's maximum.
    pub proof fn lemma_level_in_range(self)
        requires
            self.level_in_range(),
        ensures
            self@.1 <= self@.0.max_level(),
    {
    }

    pub fn new(kind: EnchantmentKind, level: u8) -> (r: Option<Self>)
        ensures
            r is Some <==> level <= kind.max_level(),
            r matches Some(e) ==> e@ == (kind, level),
    {
        if level > kind.max_level() {
            None
        } else {
            Some(Self { kind, level })
        }
    }

    pub fn kind(self) -> (r: EnchantmentKind)
        ensures
            r == self@.0,
    {
        self.kind
    }

    pub fn level(self) -> (r: u8)
        ensures
            r == self@.1,
    {
        self.level
    }
}

/// The kinds of enchantment, in catalog order.
#[derive(Clone, Copy, PartialEq, Eq, Structural, Debug)]
pub enum EnchantmentKind {
    Mending,
    Unbreaking,
    CurseOfBinding,
    CurseOfVanishing,
    Protection,
    BlastProtection,
    FireProtection,
    ProjectileProtection,
    Thorns,
    Respiration,
    AquaAffinity,
    SwiftSneak,
    DepthStrider,
    FrostWalker,
    FeatherFalling,
    SoulSpeed,
    SweepingEdge,
    Sharpness,
    Smite,
    BaneOfArthropods,
    Knockback,
    FireAspect,
    Looting,
    SilkTouch,
    Efficiency,
    Fortune,
    Power,
    Punch,
    Flame,
    Infinity,
    LuckOfTheSea,
    Lure,
    Impaling,
    Riptide,
    Loyalty,
    Channeling,
    Multishot,
    Piercing,
    QuickCharge,
}

/// Number of enchantment kinds; every kind's index is below it.
pub const ENCHANTMENT_KIND_COUNT: u32 = 39;

/// The kind at catalog position `i` (meaningful for `i < ENCHANTMENT_KIND_COUNT`).
pub open spec fn kind_at(i: int) -> EnchantmentKind {
    choose|k: EnchantmentKind| k.index() == i
}

impl EnchantmentKind {
    pub const LAST: EnchantmentKind = EnchantmentKind::QuickCharge;

    /// Position of the kind in catalog order.
    pub open spec fn index(self) -> int {
        self as int
    }

    /// The kind at position `i` of the catalog order, if there is one.
    pub fn from_index(i: u32) -> (r: Option<EnchantmentKind>)
        ensures
            i < ENCHANTMENT_KIND_COUNT <==> r is Some,
            r matches Some(k) ==> k.index() == i && k == kind_at(i as int),
    {
        let r = match i {
            0 => Some(EnchantmentKind::Mending),
            1 => Some(EnchantmentKind::Unbreaking),
            2 => Some(EnchantmentKind::CurseOfBinding),
            3 => Some(EnchantmentKind::CurseOfVanishing),
            4 => Some(EnchantmentKind::Protection),
            5 => Some(EnchantmentKind::BlastProtection),
            6 => Some(EnchantmentKind::FireProtection),
            7 => Some(EnchantmentKind::ProjectileProtection),
            8 => Some(EnchantmentKind::Thorns),
            9 => Some(EnchantmentKind::Respiration),
            10 => Some(EnchantmentKind::AquaAffinity),
            11 => Some(EnchantmentKind::SwiftSneak),
            12 => Some(EnchantmentKind::DepthStrider),
            13 => Some(EnchantmentKind::FrostWalker),
            14 => Some(EnchantmentKind::FeatherFalling),
            15 => Some(EnchantmentKind::SoulSpeed),
            16 => Some(EnchantmentKind::SweepingEdge),
            17 => Some(EnchantmentKind::Sharpness),
            18 => Some(EnchantmentKind::Smite),
            19 => Some(EnchantmentKind::BaneOfArthropods),
            20 => Some(EnchantmentKind::Knockback),
            21 => Some(EnchantmentKind::FireAspect),
            22 => Some(EnchantmentKind::Looting),
            23 => Some(EnchantmentKind::SilkTouch),
            24 => Some(EnchantmentKind::Efficiency),
            25 => Some(EnchantmentKind::Fortune),
            26 => Some(EnchantmentKind::Power),
            27 => Some(EnchantmentKind::Punch),
            28 => Some(EnchantmentKind::Flame),
            29 => Some(EnchantmentKind::Infinity),
            30 => Some(EnchantmentKind::LuckOfTheSea),
            31 => Some(EnchantmentKind::Lure),
            32 => Some(EnchantmentKind::Impaling),
            33 => Some(EnchantmentKind::Riptide),
            34 => Some(EnchantmentKind::Loyalty),
            35 => Some(EnchantmentKind::Channeling),
            36 => Some(EnchantmentKind::Multishot),
            37 => Some(EnchantmentKind::Piercing),
            38 => Some(EnchantmentKind::QuickCharge),
            _ => None,
        };
        proof {
            if let Some(k) = r {
                lemma_kind_at(k);
            }
        }
        r
    }

    pub open spec fn spec_max_level(self) -> u8 {
        match self {
            EnchantmentKind::Mending => 2,
            EnchantmentKind::Unbreaking => 3,
            EnchantmentKind::CurseOfBinding => 1,
            EnchantmentKind::CurseOfVanishing => 1,
            EnchantmentKind::Protection => 4,
            EnchantmentKind::BlastProtection => 4,
            EnchantmentKind::FireProtection => 4,
            EnchantmentKind::ProjectileProtection => 4,
            EnchantmentKind::Thorns => 3,
            EnchantmentKind::Respiration => 3,
            EnchantmentKind::AquaAffinity => 1,
            EnchantmentKind::SwiftSneak => 3,
            EnchantmentKind::DepthStrider => 3,
            EnchantmentKind::FrostWalker => 2,
            EnchantmentKind::FeatherFalling => 4,
            EnchantmentKind::SoulSpeed => 3,
            EnchantmentKind::SweepingEdge => 3,
            EnchantmentKind::Sharpness => 5,
            EnchantmentKind::Smite => 5,
            EnchantmentKind::BaneOfArthropods => 5,
            EnchantmentKind::Knockback => 2,
            EnchantmentKind::FireAspect => 2,
            EnchantmentKind::Looting => 3,
            EnchantmentKind::SilkTouch => 1,
            EnchantmentKind::Efficiency => 5,
            EnchantmentKind::Fortune => 3,
            EnchantmentKind::Power => 5,
            EnchantmentKind::Punch => 2,
            EnchantmentKind::Flame => 1,
            EnchantmentKind::Infinity => 1,
            EnchantmentKind::LuckOfTheSea => 3,
            EnchantmentKind::Lure => 3,
            EnchantmentKind::Impaling => 5,
            EnchantmentKind::Riptide => 3,
            EnchantmentKind::Loyalty => 3,
            EnchantmentKind::Channeling => 1,
            EnchantmentKind::Multishot => 1,
            EnchantmentKind::Piercing => 4,
            EnchantmentKind::QuickCharge => 3,
        }
    }

    /// Highest level an enchantment of this kind can reach.
    #[verifier::when_used_as_spec(spec_max_level)]
    pub fn max_level(self) -> (r: u8)
        ensures
            r == self.spec_max_level(),
    {
        match self {
            EnchantmentKind::Mending => 2,
            EnchantmentKind::Unbreaking => 3,
            EnchantmentKind::CurseOfBinding => 1,
            EnchantmentKind::CurseOfVanishing => 1,
            EnchantmentKind::Protection => 4,
            EnchantmentKind::BlastProtection => 4,
            EnchantmentKind::FireProtection => 4,
            EnchantmentKind::ProjectileProtection => 4,
            EnchantmentKind::Thorns => 3,
            EnchantmentKind::Respiration => 3,
            EnchantmentKind::AquaAffinity => 1,
            EnchantmentKind::SwiftSneak => 3,
            EnchantmentKind::DepthStrider => 3,
            EnchantmentKind::FrostWalker => 2,
            EnchantmentKind::FeatherFalling => 4,
            EnchantmentKind::SoulSpeed => 3,
            EnchantmentKind::SweepingEdge => 3,
            EnchantmentKind::Sharpness => 5,
            EnchantmentKind::Smite => 5,
            EnchantmentKind::BaneOfArthropods => 5,
            EnchantmentKind::Knockback => 2,
            EnchantmentKind::FireAspect => 2,
            EnchantmentKind::Looting => 3,
            EnchantmentKind::SilkTouch => 1,
            EnchantmentKind::Efficiency => 5,
            EnchantmentKind::Fortune => 3,
            EnchantmentKind::Power => 5,
            EnchantmentKind::Punch => 2,
            EnchantmentKind::Flame => 1,
            EnchantmentKind::Infinity => 1,
            EnchantmentKind::LuckOfTheSea => 3,
            EnchantmentKind::Lure => 3,
            EnchantmentKind::Impaling => 5,
            EnchantmentKind::Riptide => 3,
            EnchantmentKind::Loyalty => 3,
            EnchantmentKind::Channeling => 1,
            EnchantmentKind::Multishot => 1,
            EnchantmentKind::Piercing => 4,
            EnchantmentKind::QuickCharge => 3,
        }
    }

    /// The item kinds this enchantment may stand on, as the catalog lists them.
    pub open spec fn applicable_kinds(self) -> Seq<ItemKind> {
        match self {
            EnchantmentKind::Mending => seq![
                ItemKind::Book,
                ItemKind::Sword,
                ItemKind::Pickaxe,
                ItemKind::Shovel,
                ItemKind::Axe,
                ItemKind::Hoe,
                ItemKind::FishingRod,
                ItemKind::Helmet,
                ItemKind::Chestplate,
                ItemKind::Leggings,
                ItemKind::Boots,
                ItemKind::Bow,
                ItemKind::Shears,
                ItemKind::FlintAndSteel,
                ItemKind::CarrotOnAStick,
                ItemKind::WarpedFungusOnAStick,
                ItemKind::Shield,
                ItemKind::Elytra,
                ItemKind::Trident,
                ItemKind::Crossbow,
            ],
            EnchantmentKind::Unbreaking => seq![
                ItemKind::Book,
                ItemKind::Sword,
                ItemKind::Pickaxe,
                ItemKind::Shovel,
                ItemKind::Axe,
                ItemKind::Hoe,
                ItemKind::FishingRod,
                ItemKind::Helmet,
                ItemKind::Chestplate,
                ItemKind::Leggings,
                ItemKind::Boots,
                ItemKind::Bow,
                ItemKind::Shears,
                ItemKind::FlintAndSteel,
                ItemKind::CarrotOnAStick,
                ItemKind::WarpedFungusOnAStick,
                ItemKind::Shield,
                ItemKind::Elytra,
                ItemKind::Trident,
                ItemKind::Crossbow,
            ],
            EnchantmentKind::CurseOfBinding => seq![
                ItemKind::Book,
                ItemKind::Helmet,
                ItemKind::Chestplate,
                ItemKind::Leggings,
                ItemKind::Boots,
                ItemKind::Elytra,
                ItemKind::CarvedPumpkin,
                ItemKind::Head,
            ],
            EnchantmentKind::CurseOfVanishing => seq![
                ItemKind::Book,
                ItemKind::Sword,
                ItemKind::Pickaxe,
                ItemKind::Shovel,
                ItemKind::Axe,
                ItemKind::Hoe,
                ItemKind::FishingRod,
                ItemKind::Helmet,
                ItemKind::Chestplate,
                ItemKind::Leggings,
                ItemKind::Boots,
                ItemKind::Bow,
                ItemKind::Shears,
                ItemKind::FlintAndSteel,
                ItemKind::CarrotOnAStick,
                ItemKind::WarpedFungusOnAStick,
                ItemKind::Shield,
                ItemKind::Elytra,
                ItemKind::Trident,
                ItemKind::Crossbow,
                ItemKind::CarvedPumpkin,
                ItemKind::Head,
                ItemKind::Compass,
                ItemKind::RecoveryCompass,
            ],
            EnchantmentKind::Protection => seq![
                ItemKind::Book,
                ItemKind::Helmet,
                ItemKind::Chestplate,
                ItemKind::Leggings,
                ItemKind::Boots,
            ],
            EnchantmentKind::BlastProtection => seq![
                ItemKind::Book,
                ItemKind::Helmet,
                ItemKind::Chestplate,
                ItemKind::Leggings,
                ItemKind::Boots,
            ],
            EnchantmentKind::FireProtection => seq![
                ItemKind::Book,
                ItemKind::Helmet,
                ItemKind::Chestplate,
                ItemKind::Leggings,
                ItemKind::Boots,
            ],
            EnchantmentKind::ProjectileProtection => seq![
                ItemKind::Book,
                ItemKind::Helmet,
                ItemKind::Chestplate,
                ItemKind::Leggings,
                ItemKind::Boots,
            ],
            EnchantmentKind::Thorns => seq![
                ItemKind::Book,
                ItemKind::Helmet,
                ItemKind::Chestplate,
                ItemKind::Leggings,
                ItemKind::Boots,
            ],
            EnchantmentKind::Respiration => seq![
                ItemKind::Book,
                ItemKind::Helmet,
            ],
            EnchantmentKind::AquaAffinity => seq![
                ItemKind::Book,
                ItemKind::Helmet,
            ],
            EnchantmentKind::SwiftSneak => seq![
                ItemKind::Book,
                ItemKind::Leggings,
            ],
            EnchantmentKind::DepthStrider => seq![
                ItemKind::Book,
                ItemKind::Boots,
            ],
            EnchantmentKind::FrostWalker => seq![
                ItemKind::Book,
                ItemKind::Boots,
            ],
            EnchantmentKind::FeatherFalling => seq![
                ItemKind::Book,
                ItemKind::Boots,
            ],
            EnchantmentKind::SoulSpeed => seq![
                ItemKind::Book,
                ItemKind::Boots,
            ],
            EnchantmentKind::SweepingEdge => seq![
                ItemKind::Book,
                ItemKind::Axe,
            ],
            EnchantmentKind::Sharpness => seq![
                ItemKind::Book,
                ItemKind::Sword,
                ItemKind::Axe,
            ],
            EnchantmentKind::Smite => seq![
                ItemKind::Book,
                ItemKind::Sword,
                ItemKind::Axe,
            ],
            EnchantmentKind::BaneOfArthropods => seq![
                ItemKind::Book,
                ItemKind::Sword,
                ItemKind::Axe,
            ],
            EnchantmentKind::Knockback => seq![
                ItemKind::Book,
                ItemKind::Sword,
            ],
            EnchantmentKind::FireAspect => seq![
                ItemKind::Book,
                ItemKind::Sword,
            ],
            EnchantmentKind::Looting => seq![
                ItemKind::Book,
                ItemKind::Sword,
            ],
            EnchantmentKind::SilkTouch => seq![
                ItemKind::Book,
                ItemKind::Pickaxe,
                ItemKind::Shovel,
                ItemKind::Axe,
                ItemKind::Hoe,
            ],
            EnchantmentKind::Efficiency => seq![
                ItemKind::Book,
                ItemKind::Pickaxe,
                ItemKind::Shovel,
                ItemKind::Axe,
                ItemKind::Hoe,
                ItemKind::Shears,
            ],
            EnchantmentKind::Fortune => seq![
                ItemKind::Book,
                ItemKind::Pickaxe,
                ItemKind::Shovel,
                ItemKind::Axe,
                ItemKind::Hoe,
            ],
            EnchantmentKind::Power => seq![
                ItemKind::Book,
                ItemKind::Bow,
            ],
            EnchantmentKind::Punch => seq![
                ItemKind::Book,
                ItemKind::Bow,
            ],
            EnchantmentKind::Flame => seq![
                ItemKind::Book,
                ItemKind::Bow,
            ],
            EnchantmentKind::Infinity => seq![
                ItemKind::Book,
                ItemKind::Bow,
            ],
            EnchantmentKind::LuckOfTheSea => seq![
                ItemKind::Book,
                ItemKind::FishingRod,
            ],
            EnchantmentKind::Lure => seq![
                ItemKind::Book,
                ItemKind::FishingRod,
            ],
            EnchantmentKind::Impaling => seq![
                ItemKind::Book,
                ItemKind::Trident,
            ],
            EnchantmentKind::Riptide => seq![
                ItemKind::Book,
                ItemKind::Trident,
            ],
            EnchantmentKind::Loyalty => seq![
                ItemKind::Book,
                ItemKind::Trident,
            ],
            EnchantmentKind::Channeling => seq![
                ItemKind::Book,
                ItemKind::Trident,
            ],
            EnchantmentKind::Multishot => seq![
                ItemKind::Book,
                ItemKind::Crossbow,
            ],
            EnchantmentKind::Piercing => seq![
                ItemKind::Book,
                ItemKind::Crossbow,
            ],
            EnchantmentKind::QuickCharge => seq![
                ItemKind::Book,
                ItemKind::Crossbow,
            ],
        }
    }

    /// Whether an enchantment of this kind may stand on an item of kind `item`.
    pub open spec fn applies_to(self, item: ItemKind) -> bool {
        self.applicable_kinds().contains(item)
    }

    pub fn applicable_to(self) -> (r: ItemMask)
        ensures
            r@ == self.applicable_kinds().to_set(),
    {
        match self {
            EnchantmentKind::Mending => ItemMask::from_slice(
                &[
                    ItemKind::Book,
                    ItemKind::Sword,
                    ItemKind::Pickaxe,
                    ItemKind::Shovel,
                    ItemKind::Axe,
                    ItemKind::Hoe,
                    ItemKind::FishingRod,
                    ItemKind::Helmet,
                    ItemKind::Chestplate,
                    ItemKind::Leggings,
                    ItemKind::Boots,
                    ItemKind::Bow,
                    ItemKind::Shears,
                    ItemKind::FlintAndSteel,
                    ItemKind::CarrotOnAStick,
                    ItemKind::WarpedFungusOnAStick,
                    ItemKind::Shield,
                    ItemKind::Elytra,
                    ItemKind::Trident,
                    ItemKind::Crossbow,
                ],
            ),
            EnchantmentKind::Unbreaking => ItemMask::from_slice(
                &[
                    ItemKind::Book,
                    ItemKind::Sword,
                    ItemKind::Pickaxe,
                    ItemKind::Shovel,
                    ItemKind::Axe,
                    ItemKind::Hoe,
                    ItemKind::FishingRod,
                    ItemKind::Helmet,
                    ItemKind::Chestplate,
                    ItemKind::Leggings,
                    ItemKind::Boots,
                    ItemKind::Bow,
                    ItemKind::Shears,
                    ItemKind::FlintAndSteel,
                    ItemKind::CarrotOnAStick,
                    ItemKind::WarpedFungusOnAStick,
                    ItemKind::Shield,
                    ItemKind::Elytra,
                    ItemKind::Trident,
                    ItemKind::Crossbow,
                ],
            ),
            EnchantmentKind::CurseOfBinding => ItemMask::from_slice(
                &[
                    ItemKind::Book,
                    ItemKind::Helmet,
                    ItemKind::Chestplate,
                    ItemKind::Leggings,
                    ItemKind::Boots,
                    ItemKind::Elytra,
                    ItemKind::CarvedPumpkin,
                    ItemKind::Head,
                ],
            ),
            EnchantmentKind::CurseOfVanishing => ItemMask::from_slice(
                &[
                    ItemKind::Book,
                    ItemKind::Sword,
                    ItemKind::Pickaxe,
                    ItemKind::Shovel,
                    ItemKind::Axe,
                    ItemKind::Hoe,
                    ItemKind::FishingRod,
                    ItemKind::Helmet,
                    ItemKind::Chestplate,
                    ItemKind::Leggings,
                    ItemKind::Boots,
                    ItemKind::Bow,
                    ItemKind::Shears,
                    ItemKind::FlintAndSteel,
                    ItemKind::CarrotOnAStick,
                    ItemKind::WarpedFungusOnAStick,
                    ItemKind::Shield,
                    ItemKind::Elytra,
                    ItemKind::Trident,
                    ItemKind::Crossbow,
                    ItemKind::CarvedPumpkin,
                    ItemKind::Head,
                    ItemKind::Compass,
                    ItemKind::RecoveryCompass,
                ],
            ),
            EnchantmentKind::Protection => ItemMask::from_slice(
                &[
                    ItemKind::Book,
                    ItemKind::Helmet,
                    ItemKind::Chestplate,
                    ItemKind::Leggings,
                    ItemKind::Boots,
                ],
            ),
            EnchantmentKind::BlastProtection => ItemMask::from_slice(
                &[
                    ItemKind::Book,
                    ItemKind::Helmet,
                    ItemKind::Chestplate,
                    ItemKind::Leggings,
                    ItemKind::Boots,
                ],
            ),
            EnchantmentKind::FireProtection => ItemMask::from_slice(
                &[
                    ItemKind::Book,
                    ItemKind::Helmet,
                    ItemKind::Chestplate,
                    ItemKind::Leggings,
                    ItemKind::Boots,
                ],
            ),
            EnchantmentKind::ProjectileProtection => ItemMask::from_slice(
                &[
                    ItemKind::Book,
                    ItemKind::Helmet,
                    ItemKind::Chestplate,
                    ItemKind::Leggings,
                    ItemKind::Boots,
                ],
            ),
            EnchantmentKind::Thorns => ItemMask::from_slice(
                &[
                    ItemKind::Book,
                    ItemKind::Helmet,
                    ItemKind::Chestplate,
                    ItemKind::Leggings,
                    ItemKind::Boots,
                ],
            ),
            EnchantmentKind::Respiration => ItemMask::from_slice(
                &[
                    ItemKind::Book,
                    ItemKind::Helmet,
                ],
            ),
            EnchantmentKind::AquaAffinity => ItemMask::from_slice(
                &[
                    ItemKind::Book,
                    ItemKind::Helmet,
                ],
            ),
            EnchantmentKind::SwiftSneak => ItemMask::from_slice(
                &[
                    ItemKind::Book,
                    ItemKind::Leggings,
                ],
            ),
            EnchantmentKind::DepthStrider => ItemMask::from_slice(
                &[
                    ItemKind::Book,
                    ItemKind::Boots,
                ],
            ),
            EnchantmentKind::FrostWalker => ItemMask::from_slice(
                &[
                    ItemKind::Book,
                    ItemKind::Boots,
                ],
            ),
            EnchantmentKind::FeatherFalling => ItemMask::from_slice(
                &[
                    ItemKind::Book,
                    ItemKind::Boots,
                ],
            ),
            EnchantmentKind::SoulSpeed => ItemMask::from_slice(
                &[
                    ItemKind::Book,
                    ItemKind::Boots,
                ],
            ),
            EnchantmentKind::SweepingEdge => ItemMask::from_slice(
                &[
                    ItemKind::Book,
                    ItemKind::Axe,
                ],
            ),
            EnchantmentKind::Sharpness => ItemMask::from_slice(
                &[
                    ItemKind::Book,
                    ItemKind::Sword,
                    ItemKind::Axe,
                ],
            ),
            EnchantmentKind::Smite => ItemMask::from_slice(
                &[
                    ItemKind::Book,
                    ItemKind::Sword,
                    ItemKind::Axe,
                ],
            ),
            EnchantmentKind::BaneOfArthropods => ItemMask::from_slice(
                &[
                    ItemKind::Book,
                    ItemKind::Sword,
                    ItemKind::Axe,
                ],
            ),
            EnchantmentKind::Knockback => ItemMask::from_slice(
                &[
                    ItemKind::Book,
                    ItemKind::Sword,
                ],
            ),
            EnchantmentKind::FireAspect => ItemMask::from_slice(
                &[
                    ItemKind::Book,
                    ItemKind::Sword,
                ],
            ),
            EnchantmentKind::Looting => ItemMask::from_slice(
                &[
                    ItemKind::Book,
                    ItemKind::Sword,
                ],
            ),
            EnchantmentKind::SilkTouch => ItemMask::from_slice(
                &[
                    ItemKind::Book,
                    ItemKind::Pickaxe,
                    ItemKind::Shovel,
                    ItemKind::Axe,
                    ItemKind::Hoe,
                ],
            ),
            EnchantmentKind::Efficiency => ItemMask::from_slice(
                &[
                    ItemKind::Book,
                    ItemKind::Pickaxe,
                    ItemKind::Shovel,
                    ItemKind::Axe,
                    ItemKind::Hoe,
                    ItemKind::Shears,
                ],
            ),
            EnchantmentKind::Fortune => ItemMask::from_slice(
                &[
                    ItemKind::Book,
                    ItemKind::Pickaxe,
                    ItemKind::Shovel,
                    ItemKind::Axe,
                    ItemKind::Hoe,
                ],
            ),
            EnchantmentKind::Power => ItemMask::from_slice(
                &[
                    ItemKind::Book,
                    ItemKind::Bow,
                ],
            ),
            EnchantmentKind::Punch => ItemMask::from_slice(
                &[
                    ItemKind::Book,
                    ItemKind::Bow,
                ],
            ),
            EnchantmentKind::Flame => ItemMask::from_slice(
                &[
                    ItemKind::Book,
                    ItemKind::Bow,
                ],
            ),
            EnchantmentKind::Infinity => ItemMask::from_slice(
                &[
                    ItemKind::Book,
                    ItemKind::Bow,
                ],
            ),
            EnchantmentKind::LuckOfTheSea => ItemMask::from_slice(
                &[
                    ItemKind::Book,
                    ItemKind::FishingRod,
                ],
            ),
            EnchantmentKind::Lure => ItemMask::from_slice(
                &[
                    ItemKind::Book,
                    ItemKind::FishingRod,
                ],
            ),
            EnchantmentKind::Impaling => ItemMask::from_slice(
                &[
                    ItemKind::Book,
                    ItemKind::Trident,
                ],
            ),
            EnchantmentKind::Riptide => ItemMask::from_slice(
                &[
                    ItemKind::Book,
                    ItemKind::Trident,
                ],
            ),
            EnchantmentKind::Loyalty => ItemMask::from_slice(
                &[
                    ItemKind::Book,
                    ItemKind::Trident,
                ],
            ),
            EnchantmentKind::Channeling => ItemMask::from_slice(
                &[
                    ItemKind::Book,
                    ItemKind::Trident,
                ],
            ),
            EnchantmentKind::Multishot => ItemMask::from_slice(
                &[
                    ItemKind::Book,
                    ItemKind::Crossbow,
                ],
            ),
            EnchantmentKind::Piercing => ItemMask::from_slice(
                &[
                    ItemKind::Book,
                    ItemKind::Crossbow,
                ],
            ),
            EnchantmentKind::QuickCharge => ItemMask::from_slice(
                &[
                    ItemKind::Book,
                    ItemKind::Crossbow,
                ],
            ),
        }
    }

    /// The enchantment kinds that can never stand beside this one, as the catalog lists them.
    pub open spec fn incompatible_kinds(self) -> Seq<EnchantmentKind> {
        match self {
            EnchantmentKind::Mending => seq![
                EnchantmentKind::Infinity,
            ],
            EnchantmentKind::Unbreaking => seq![],
            EnchantmentKind::CurseOfBinding => seq![],
            EnchantmentKind::CurseOfVanishing => seq![],
            EnchantmentKind::Protection => seq![
                EnchantmentKind::FireProtection,
                EnchantmentKind::BlastProtection,
                EnchantmentKind::ProjectileProtection,
            ],
            EnchantmentKind::BlastProtection => seq![
                EnchantmentKind::FireProtection,
                EnchantmentKind::Protection,
                EnchantmentKind::ProjectileProtection,
            ],
            EnchantmentKind::FireProtection => seq![
                EnchantmentKind::Protection,
                EnchantmentKind::BlastProtection,
                EnchantmentKind::ProjectileProtection,
            ],
            EnchantmentKind::ProjectileProtection => seq![
                EnchantmentKind::FireProtection,
                EnchantmentKind::BlastProtection,
                EnchantmentKind::Protection,
            ],
            EnchantmentKind::Thorns => seq![],
            EnchantmentKind::Respiration => seq![],
            EnchantmentKind::AquaAffinity => seq![],
            EnchantmentKind::SwiftSneak => seq![],
            EnchantmentKind::DepthStrider => seq![
                EnchantmentKind::FrostWalker,
            ],
            EnchantmentKind::FrostWalker => seq![
                EnchantmentKind::DepthStrider,
            ],
            EnchantmentKind::FeatherFalling => seq![],
            EnchantmentKind::SoulSpeed => seq![],
            EnchantmentKind::SweepingEdge => seq![],
            EnchantmentKind::Sharpness => seq![
                EnchantmentKind::Smite,
                EnchantmentKind::BaneOfArthropods,
            ],
            EnchantmentKind::Smite => seq![
                EnchantmentKind::Sharpness,
                EnchantmentKind::BaneOfArthropods,
            ],
            EnchantmentKind::BaneOfArthropods => seq![
                EnchantmentKind::Sharpness,
                EnchantmentKind::Smite,
            ],
            EnchantmentKind::Knockback => seq![],
            EnchantmentKind::FireAspect => seq![],
            EnchantmentKind::Looting => seq![],
            EnchantmentKind::SilkTouch => seq![
                EnchantmentKind::Fortune,
            ],
            EnchantmentKind::Efficiency => seq![],
            EnchantmentKind::Fortune => seq![
                EnchantmentKind::SilkTouch,
            ],
            EnchantmentKind::Power => seq![],
            EnchantmentKind::Punch => seq![],
            EnchantmentKind::Flame => seq![],
            EnchantmentKind::Infinity => seq![
                EnchantmentKind::Mending,
            ],
            EnchantmentKind::LuckOfTheSea => seq![],
            EnchantmentKind::Lure => seq![],
            EnchantmentKind::Impaling => seq![],
            EnchantmentKind::Riptide => seq![
                EnchantmentKind::Loyalty,
                EnchantmentKind::Channeling,
            ],
            EnchantmentKind::Loyalty => seq![
                EnchantmentKind::Riptide,
            ],
            EnchantmentKind::Channeling => seq![
                EnchantmentKind::Riptide,
            ],
            EnchantmentKind::Multishot => seq![
                EnchantmentKind::Piercing,
            ],
            EnchantmentKind::Piercing => seq![
                EnchantmentKind::Multishot,
            ],
            EnchantmentKind::QuickCharge => seq![],
        }
    }

    /// Whether this kind can never stand on one item beside `other`.
    pub open spec fn clashes_with(self, other: EnchantmentKind) -> bool {
        self.incompatible_kinds().contains(other)
    }

    pub fn incompatible_with(self) -> (r: EnchantmentMask)
        ensures
            r@ == self.incompatible_kinds().to_set(),
    {
        proof {
            lemma_empty_to_set();
        }
        match self {
            EnchantmentKind::Mending => {
                let kinds = [EnchantmentKind::Infinity];
                assert(kinds@ =~= seq![EnchantmentKind::Infinity]);
                EnchantmentMask::from_slice(&kinds)
            },
            EnchantmentKind::Unbreaking => EnchantmentMask::empty(),
            EnchantmentKind::CurseOfBinding => EnchantmentMask::empty(),
            EnchantmentKind::CurseOfVanishing => EnchantmentMask::empty(),
            EnchantmentKind::Protection => {
                let kinds = [EnchantmentKind::FireProtection, EnchantmentKind::BlastProtection, EnchantmentKind::ProjectileProtection];
                assert(kinds@ =~= seq![EnchantmentKind::FireProtection, EnchantmentKind::BlastProtection, EnchantmentKind::ProjectileProtection]);
                EnchantmentMask::from_slice(&kinds)
            },
            EnchantmentKind::BlastProtection => {
                let kinds = [EnchantmentKind::FireProtection, EnchantmentKind::Protection, EnchantmentKind::ProjectileProtection];
                assert(kinds@ =~= seq![EnchantmentKind::FireProtection, EnchantmentKind::Protection, EnchantmentKind::ProjectileProtection]);
                EnchantmentMask::from_slice(&kinds)
            },
            EnchantmentKind::FireProtection => {
                let kinds = [EnchantmentKind::Protection, EnchantmentKind::BlastProtection, EnchantmentKind::ProjectileProtection];
                assert(kinds@ =~= seq![EnchantmentKind::Protection, EnchantmentKind::BlastProtection, EnchantmentKind::ProjectileProtection]);
                EnchantmentMask::from_slice(&kinds)
            },
            EnchantmentKind::ProjectileProtection => {
                let kinds = [EnchantmentKind::FireProtection, EnchantmentKind::BlastProtection, EnchantmentKind::Protection];
                assert(kinds@ =~= seq![EnchantmentKind::FireProtection, EnchantmentKind::BlastProtection, EnchantmentKind::Protection]);
                EnchantmentMask::from_slice(&kinds)
            },
            EnchantmentKind::Thorns => EnchantmentMask::empty(),
            EnchantmentKind::Respiration => EnchantmentMask::empty(),
            EnchantmentKind::AquaAffinity => EnchantmentMask::empty(),
            EnchantmentKind::SwiftSneak => EnchantmentMask::empty(),
            EnchantmentKind::DepthStrider => {
                let kinds = [EnchantmentKind::FrostWalker];
                assert(kinds@ =~= seq![EnchantmentKind::FrostWalker]);
                EnchantmentMask::from_slice(&kinds)
            },
            EnchantmentKind::FrostWalker => {
                let kinds = [EnchantmentKind::DepthStrider];
                assert(kinds@ =~= seq![EnchantmentKind::DepthStrider]);
                EnchantmentMask::from_slice(&kinds)
            },
            EnchantmentKind::FeatherFalling => EnchantmentMask::empty(),
            EnchantmentKind::SoulSpeed => EnchantmentMask::empty(),
            EnchantmentKind::SweepingEdge => EnchantmentMask::empty(),
            EnchantmentKind::Sharpness => {
                let kinds = [EnchantmentKind::Smite, EnchantmentKind::BaneOfArthropods];
                assert(kinds@ =~= seq![EnchantmentKind::Smite, EnchantmentKind::BaneOfArthropods]);
                EnchantmentMask::from_slice(&kinds)
            },
            EnchantmentKind::Smite => {
                let kinds = [EnchantmentKind::Sharpness, EnchantmentKind::BaneOfArthropods];
                assert(kinds@ =~= seq![EnchantmentKind::Sharpness, EnchantmentKind::BaneOfArthropods]);
                EnchantmentMask::from_slice(&kinds)
            },
            EnchantmentKind::BaneOfArthropods => {
                let kinds = [EnchantmentKind::Sharpness, EnchantmentKind::Smite];
                assert(kinds@ =~= seq![EnchantmentKind::Sharpness, EnchantmentKind::Smite]);
                EnchantmentMask::from_slice(&kinds)
            },
            EnchantmentKind::Knockback => EnchantmentMask::empty(),
            EnchantmentKind::FireAspect => EnchantmentMask::empty(),
            EnchantmentKind::Looting => EnchantmentMask::empty(),
            EnchantmentKind::SilkTouch => {
                let kinds = [EnchantmentKind::Fortune];
                assert(kinds@ =~= seq![EnchantmentKind::Fortune]);
                EnchantmentMask::from_slice(&kinds)
            },
            EnchantmentKind::Efficiency => EnchantmentMask::empty(),
            EnchantmentKind::Fortune => {
                let kinds = [EnchantmentKind::SilkTouch];
                assert(kinds@ =~= seq![EnchantmentKind::SilkTouch]);
                EnchantmentMask::from_slice(&kinds)
            },
            EnchantmentKind::Power => EnchantmentMask::empty(),
            EnchantmentKind::Punch => EnchantmentMask::empty(),
            EnchantmentKind::Flame => EnchantmentMask::empty(),
            EnchantmentKind::Infinity => {
                let kinds = [EnchantmentKind::Mending];
                assert(kinds@ =~= seq![EnchantmentKind::Mending]);
                EnchantmentMask::from_slice(&kinds)
            },
            EnchantmentKind::LuckOfTheSea => EnchantmentMask::empty(),
            EnchantmentKind::Lure => EnchantmentMask::empty(),
            EnchantmentKind::Impaling => EnchantmentMask::empty(),
            EnchantmentKind::Riptide => {
                let kinds = [EnchantmentKind::Loyalty, EnchantmentKind::Channeling];
                assert(kinds@ =~= seq![EnchantmentKind::Loyalty, EnchantmentKind::Channeling]);
                EnchantmentMask::from_slice(&kinds)
            },
            EnchantmentKind::Loyalty => {
                let kinds = [EnchantmentKind::Riptide];
                assert(kinds@ =~= seq![EnchantmentKind::Riptide]);
                EnchantmentMask::from_slice(&kinds)
            },
            EnchantmentKind::Channeling => {
                let kinds = [EnchantmentKind::Riptide];
                assert(kinds@ =~= seq![EnchantmentKind::Riptide]);
                EnchantmentMask::from_slice(&kinds)
            },
            EnchantmentKind::Multishot => {
                let kinds = [EnchantmentKind::Piercing];
                assert(kinds@ =~= seq![EnchantmentKind::Piercing]);
                EnchantmentMask::from_slice(&kinds)
            },
            EnchantmentKind::Piercing => {
                let kinds = [EnchantmentKind::Multishot];
                assert(kinds@ =~= seq![EnchantmentKind::Multishot]);
                EnchantmentMask::from_slice(&kinds)
            },
            EnchantmentKind::QuickCharge => EnchantmentMask::empty(),
        }
    }

    pub open spec fn spec_item_multiplier(self) -> u8 {
        match self {
            EnchantmentKind::Mending => 4,
            EnchantmentKind::Unbreaking => 2,
            EnchantmentKind::CurseOfBinding => 8,
            EnchantmentKind::CurseOfVanishing => 8,
            EnchantmentKind::Protection => 1,
            EnchantmentKind::BlastProtection => 4,
            EnchantmentKind::FireProtection => 2,
            EnchantmentKind::ProjectileProtection => 2,
            EnchantmentKind::Thorns => 8,
            EnchantmentKind::Respiration => 4,
            EnchantmentKind::AquaAffinity => 4,
            EnchantmentKind::SwiftSneak => 8,
            EnchantmentKind::DepthStrider => 4,
            EnchantmentKind::FrostWalker => 4,
            EnchantmentKind::FeatherFalling => 2,
            EnchantmentKind::SoulSpeed => 8,
            EnchantmentKind::SweepingEdge => 4,
            EnchantmentKind::Sharpness => 1,
            EnchantmentKind::Smite => 2,
            EnchantmentKind::BaneOfArthropods => 2,
            EnchantmentKind::Knockback => 2,
            EnchantmentKind::FireAspect => 4,
            EnchantmentKind::Looting => 4,
            EnchantmentKind::SilkTouch => 8,
            EnchantmentKind::Efficiency => 1,
            EnchantmentKind::Fortune => 4,
            EnchantmentKind::Power => 1,
            EnchantmentKind::Punch => 4,
            EnchantmentKind::Flame => 4,
            EnchantmentKind::Infinity => 8,
            EnchantmentKind::LuckOfTheSea => 4,
            EnchantmentKind::Lure => 4,
            EnchantmentKind::Impaling => 4,
            EnchantmentKind::Riptide => 4,
            EnchantmentKind::Loyalty => 1,
            EnchantmentKind::Channeling => 8,
            EnchantmentKind::Multishot => 4,
            EnchantmentKind::Piercing => 1,
            EnchantmentKind::QuickCharge => 2,
        }
    }

    /// Cost of one level of this enchantment when it comes from an item.
    #[verifier::when_used_as_spec(spec_item_multiplier)]
    pub fn item_multiplier(self) -> (r: u8)
        ensures
            r == self.spec_item_multiplier(),
    {
        match self {
            EnchantmentKind::Mending => 4,
            EnchantmentKind::Unbreaking => 2,
            EnchantmentKind::CurseOfBinding => 8,
            EnchantmentKind::CurseOfVanishing => 8,
            EnchantmentKind::Protection => 1,
            EnchantmentKind::BlastProtection => 4,
            EnchantmentKind::FireProtection => 2,
            EnchantmentKind::ProjectileProtection => 2,
            EnchantmentKind::Thorns => 8,
            EnchantmentKind::Respiration => 4,
            EnchantmentKind::AquaAffinity => 4,
            EnchantmentKind::SwiftSneak => 8,
            EnchantmentKind::DepthStrider => 4,
            EnchantmentKind::FrostWalker => 4,
            EnchantmentKind::FeatherFalling => 2,
            EnchantmentKind::SoulSpeed => 8,
            EnchantmentKind::SweepingEdge => 4,
            EnchantmentKind::Sharpness => 1,
            EnchantmentKind::Smite => 2,
            EnchantmentKind::BaneOfArthropods => 2,
            EnchantmentKind::Knockback => 2,
            EnchantmentKind::FireAspect => 4,
            EnchantmentKind::Looting => 4,
            EnchantmentKind::SilkTouch => 8,
            EnchantmentKind::Efficiency => 1,
            EnchantmentKind::Fortune => 4,
            EnchantmentKind::Power => 1,
            EnchantmentKind::Punch => 4,
            EnchantmentKind::Flame => 4,
            EnchantmentKind::Infinity => 8,
            EnchantmentKind::LuckOfTheSea => 4,
            EnchantmentKind::Lure => 4,
            EnchantmentKind::Impaling => 4,
            EnchantmentKind::Riptide => 4,
            EnchantmentKind::Loyalty => 1,
            EnchantmentKind::Channeling => 8,
            EnchantmentKind::Multishot => 4,
            EnchantmentKind::Piercing => 1,
            EnchantmentKind::QuickCharge => 2,
        }
    }

    pub open spec fn spec_book_multiplier(self) -> u8 {
        if self.item_multiplier() == 1 {
            1
        } else {
            (self.item_multiplier() / 2) as u8
        }
    }

    /// Cost of one level of this enchantment when it comes from a book: half
    /// the item multiplier, but never below 1.
    #[verifier::when_used_as_spec(spec_book_multiplier)]
    pub fn book_multiplier(self) -> (r: u8)
        ensures
            r == (if self.item_multiplier() == 1 {
                1
            } else {
                self.item_multiplier() / 2
            }),
    {
        let i = self.item_multiplier();
        if i == 1 {
            1
        } else {
            i / 2
        }
    }
}

/// `kind_at` inverts `index`, and every index lies below `ENCHANTMENT_KIND_COUNT`.
pub proof fn lemma_kind_at(k: EnchantmentKind)
    ensures
        kind_at(k.index()) == k,
        0 <= k.index() < ENCHANTMENT_KIND_COUNT,
{
    let c = kind_at(k.index());
    assert(c.index() == k.index());
}

/// Every catalog position below `ENCHANTMENT_KIND_COUNT` holds a kind.
pub proof fn lemma_kind_at_index(i: int)
    requires
        0 <= i < ENCHANTMENT_KIND_COUNT,
    ensures
        kind_at(i).index() == i,
{
    let k = if i == 0 {
            EnchantmentKind::Mending
        } else if i == 1 {
            EnchantmentKind::Unbreaking
        } else if i == 2 {
            EnchantmentKind::CurseOfBinding
        } else if i == 3 {
            EnchantmentKind::CurseOfVanishing
        } else if i == 4 {
            EnchantmentKind::Protection
        } else if i == 5 {
            EnchantmentKind::BlastProtection
        } else if i == 6 {
            EnchantmentKind::FireProtection
        } else if i == 7 {
            EnchantmentKind::ProjectileProtection
        } else if i == 8 {
            EnchantmentKind::Thorns
        } else if i == 9 {
            EnchantmentKind::Respiration
        } else if i == 10 {
            EnchantmentKind::AquaAffinity
        } else if i == 11 {
            EnchantmentKind::SwiftSneak
        } else if i == 12 {
            EnchantmentKind::DepthStrider
        } else if i == 13 {
            EnchantmentKind::FrostWalker
        } else if i == 14 {
            EnchantmentKind::FeatherFalling
        } else if i == 15 {
            EnchantmentKind::SoulSpeed
        } else if i == 16 {
            EnchantmentKind::SweepingEdge
        } else if i == 17 {
            EnchantmentKind::Sharpness
        } else if i == 18 {
            EnchantmentKind::Smite
        } else if i == 19 {
            EnchantmentKind::BaneOfArthropods
        } else if i == 20 {
            EnchantmentKind::Knockback
        } else if i == 21 {
            EnchantmentKind::FireAspect
        } else if i == 22 {
            EnchantmentKind::Looting
        } else if i == 23 {
            EnchantmentKind::SilkTouch
        } else if i == 24 {
            EnchantmentKind::Efficiency
        } else if i == 25 {
            EnchantmentKind::Fortune
        } else if i == 26 {
            EnchantmentKind::Power
        } else if i == 27 {
            EnchantmentKind::Punch
        } else if i == 28 {
            EnchantmentKind::Flame
        } else if i == 29 {
            EnchantmentKind::Infinity
        } else if i == 30 {
            EnchantmentKind::LuckOfTheSea
        } else if i == 31 {
            EnchantmentKind::Lure
        } else if i == 32 {
            EnchantmentKind::Impaling
        } else if i == 33 {
            EnchantmentKind::Riptide
        } else if i == 34 {
            EnchantmentKind::Loyalty
        } else if i == 35 {
            EnchantmentKind::Channeling
        } else if i == 36 {
            EnchantmentKind::Multishot
        } else if i == 37 {
            EnchantmentKind::Piercing
        } else {
            EnchantmentKind::QuickCharge
        };
    assert(k.index() == i);
}

proof fn lemma_empty_to_set()
    ensures
        Seq::<EnchantmentKind>::empty().to_set() == Set::<EnchantmentKind>::empty(),
{
    assert(Seq::<EnchantmentKind>::empty().to_set() =~= Set::<EnchantmentKind>::empty());
}

} // verus!
