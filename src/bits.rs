use vstd::prelude::*;

use crate::enchantments::{kind_at, lemma_kind_at, Enchantment, EnchantmentKind, ENCHANTMENT_KIND_COUNT};
use crate::items::{ItemKind, ITEM_KIND_COUNT};

verus! {

/// Whether bit `i` of `x` is set.
pub open spec fn bit32(x: u32, i: u32) -> bool {
    (x >> i) & 1u32 == 1u32
}

/// Whether bit `i` of `x` is set.
pub open spec fn bit64(x: u64, i: u64) -> bool {
    (x >> i) & 1u64 == 1u64
}

proof fn lemma_bit32(x: u32, i: u32, j: u32)
    by (bit_vector)
    requires
        i < 32,
        j < 32,
    ensures
        (x & (1u32 << i)) != 0 <==> bit32(x, i),
        bit32(x | (1u32 << i), j) <==> (i == j || bit32(x, j)),
        bit32(x & !(1u32 << i), j) <==> (i != j && bit32(x, j)),
        !bit32(0u32, j),
{
}

proof fn lemma_bit64(x: u64, i: u64, j: u64)
    by (bit_vector)
    requires
        i < 64,
        j < 64,
    ensures
        (x & (1u64 << i)) != 0 <==> bit64(x, i),
        bit64(x | (1u64 << i), j) <==> (i == j || bit64(x, j)),
        bit64(x & !(1u64 << i), j) <==> (i != j && bit64(x, j)),
        !bit64(0u64, j),
{
}

/// A set of item kinds, one bit per kind.
#[derive(Clone, Copy, PartialEq, Eq, Structural, Debug)]
pub struct ItemMask(pub u32);

impl View for ItemMask {
    type V = Set<ItemKind>;

    open spec fn view(&self) -> Set<ItemKind> {
        Set::new(|k: ItemKind| bit32(self.0, k.index() as u32))
    }
}

impl ItemMask {
    pub fn empty() -> (r: Self)
        ensures
            r@ == Set::<ItemKind>::empty(),
    {
        let r = ItemMask(0);
        assert forall|k: ItemKind| !r@.contains(k) by {
            lemma_bit32(0, 0, k.index() as u32);
        }
        assert(r@ =~= Set::<ItemKind>::empty());
        r
    }

    pub fn from_slice(slice: &[ItemKind]) -> (r: Self)
        ensures
            r@ == slice@.to_set(),
    {
        let mut mask = Self::empty();
        let mut index: usize = 0;
        while index < slice.len()
            invariant
                index <= slice@.len(),
                mask@ == slice@.subrange(0, index as int).to_set(),
            decreases slice@.len() - index,
        {
            let next = mask.add(slice[index]);
            assert(slice@.subrange(0, index + 1) =~= slice@.subrange(0, index as int).push(
                slice@[index as int],
            ));
            proof {
                slice@.subrange(0, index as int).lemma_push_to_set_commute(slice@[index as int]);
            }
            mask = next;
            index += 1;
        }
        assert(slice@.subrange(0, slice@.len() as int) =~= slice@);
        mask
    }

    pub fn has(self, kind: ItemKind) -> (r: bool)
        ensures
            r == self@.contains(kind),
    {
        proof {
            lemma_bit32(self.0, kind.index() as u32, 0);
        }
        self.0 & (1u32 << (kind as u32)) != 0
    }

    pub fn add(self, kind: ItemKind) -> (r: Self)
        ensures
            r@ == self@.insert(kind),
    {
        let r = Self(self.0 | (1u32 << (kind as u32)));
        assert forall|k: ItemKind| r@.contains(k) == self@.insert(kind).contains(k) by {
            lemma_bit32(self.0, kind.index() as u32, k.index() as u32);
        }
        assert(r@ =~= self@.insert(kind));
        r
    }

    pub fn remove(self, kind: ItemKind) -> (r: Self)
        ensures
            r@ == self@.remove(kind),
    {
        let r = Self(self.0 & !(1u32 << (kind as u32)));
        assert forall|k: ItemKind| r@.contains(k) == self@.remove(kind).contains(k) by {
            lemma_bit32(self.0, kind.index() as u32, k.index() as u32);
        }
        assert(r@ =~= self@.remove(kind));
        r
    }

    /// Every item kind in declaration order, with whether the set holds it.
    pub fn iter(self) -> (r: Vec<(ItemKind, bool)>)
        ensures
            r@.len() == ITEM_KIND_COUNT,
            forall|i: int|
                0 <= i < r@.len() ==> (#[trigger] r@[i]).0.index() == i && r@[i].1
                    == self@.contains(r@[i].0),
    {
        let mut out: Vec<(ItemKind, bool)> = Vec::new();
        let mut index: u32 = 0;
        while index < ITEM_KIND_COUNT
            invariant
                index <= ITEM_KIND_COUNT,
                out@.len() == index,
                forall|i: int|
                    0 <= i < out@.len() ==> (#[trigger] out@[i]).0.index() == i && out@[i].1
                        == self@.contains(out@[i].0),
            decreases ITEM_KIND_COUNT - index,
        {
            let kind = ItemKind::from_index(index).unwrap();
            out.push((kind, self.has(kind)));
            index += 1;
        }
        out
    }
}

/// A set of enchantment kinds, one bit per kind.
#[derive(Clone, Copy, PartialEq, Eq, Structural, Debug)]
pub struct EnchantmentMask(pub u64);

impl View for EnchantmentMask {
    type V = Set<EnchantmentKind>;

    open spec fn view(&self) -> Set<EnchantmentKind> {
        Set::new(|k: EnchantmentKind| bit64(self.0, k.index() as u64))
    }
}

impl EnchantmentMask {
    pub fn empty() -> (r: Self)
        ensures
            r@ == Set::<EnchantmentKind>::empty(),
    {
        let r = EnchantmentMask(0);
        assert forall|k: EnchantmentKind| !r@.contains(k) by {
            lemma_bit64(0, 0, k.index() as u64);
        }
        assert(r@ =~= Set::<EnchantmentKind>::empty());
        r
    }

    pub fn from_slice(slice: &[EnchantmentKind]) -> (r: Self)
        ensures
            r@ == slice@.to_set(),
    {
        let mut mask = Self::empty();
        let mut index: usize = 0;
        while index < slice.len()
            invariant
                index <= slice@.len(),
                mask@ == slice@.subrange(0, index as int).to_set(),
            decreases slice@.len() - index,
        {
            let next = mask.add(slice[index]);
            assert(slice@.subrange(0, index + 1) =~= slice@.subrange(0, index as int).push(
                slice@[index as int],
            ));
            proof {
                slice@.subrange(0, index as int).lemma_push_to_set_commute(slice@[index as int]);
            }
            mask = next;
            index += 1;
        }
        assert(slice@.subrange(0, slice@.len() as int) =~= slice@);
        mask
    }

    pub fn add(self, kind: EnchantmentKind) -> (r: Self)
        ensures
            r@ == self@.insert(kind),
    {
        let r = Self(self.0 | (1u64 << (kind as u64)));
        assert forall|k: EnchantmentKind| r@.contains(k) == self@.insert(kind).contains(k) by {
            lemma_bit64(self.0, kind.index() as u64, k.index() as u64);
        }
        assert(r@ =~= self@.insert(kind));
        r
    }

    pub fn has(self, kind: EnchantmentKind) -> (r: bool)
        ensures
            r == self@.contains(kind),
    {
        proof {
            lemma_bit64(self.0, kind.index() as u64, 0);
        }
        self.0 & (1u64 << (kind as u64)) != 0
    }

    pub fn remove(self, kind: EnchantmentKind) -> (r: Self)
        ensures
            r@ == self@.remove(kind),
    {
        let r = Self(self.0 & !(1u64 << (kind as u64)));
        assert forall|k: EnchantmentKind| r@.contains(k) == self@.remove(kind).contains(k) by {
            lemma_bit64(self.0, kind.index() as u64, k.index() as u64);
        }
        assert(r@ =~= self@.remove(kind));
        r
    }

    /// Every enchantment kind in declaration order, with whether the set holds it.
    pub fn iter(self) -> (r: Vec<(EnchantmentKind, bool)>)
        ensures
            r@.len() == ENCHANTMENT_KIND_COUNT,
            forall|i: int|
                0 <= i < r@.len() ==> (#[trigger] r@[i]).0.index() == i && r@[i].1
                    == self@.contains(r@[i].0),
    {
        let mut out: Vec<(EnchantmentKind, bool)> = Vec::new();
        let mut index: u32 = 0;
        while index < ENCHANTMENT_KIND_COUNT
            invariant
                index <= ENCHANTMENT_KIND_COUNT,
                out@.len() == index,
                forall|i: int|
                    0 <= i < out@.len() ==> (#[trigger] out@[i]).0.index() == i && out@[i].1
                        == self@.contains(out@[i].0),
            decreases ENCHANTMENT_KIND_COUNT - index,
        {
            let kind = EnchantmentKind::from_index(index).unwrap();
            out.push((kind, self.has(kind)));
            index += 1;
        }
        out
    }
}

/// The three-bit level field of slot `i` in a packed profile.
pub open spec fn slot(x: u128, i: u128) -> u128 {
    (x >> (i * 3)) & 7u128
}

/// Bits at and above this position are never used by a profile.
pub const PROFILE_BITS: u128 = 117;

proof fn lemma_slot(x: u128, i: u128, j: u128, l: u128)
    by (bit_vector)
    requires
        i < 39,
        j < 39,
        l < 8,
    ensures
        slot((x & !(7u128 << (i * 3))) | (l << (i * 3)), j) == if i == j {
            l
        } else {
            slot(x, j)
        },
        x >> 117u128 == 0 ==> ((x & !(7u128 << (i * 3))) | (l << (i * 3))) >> 117u128 == 0,
        (x & (7u128 << (i * 3))) != 0 <==> slot(x, i) != 0,
        slot(0u128, j) == 0,
        slot(x, j) < 8,
        0u128 >> 117u128 == 0,
{
}

/// Number of non-zero entries of `s`.
pub open spec fn count_nonzero(s: Seq<u8>) -> nat
    decreases s.len(),
{
    if s.len() == 0 {
        0
    } else {
        count_nonzero(s.drop_last()) + if s.last() > 0 {
            1nat
        } else {
            0nat
        }
    }
}

/// The (kind, level) pairs among the first `n` entries of a level sequence
/// whose level is non-zero, in catalog order.
pub open spec fn present_prefix(s: Seq<u8>, n: nat) -> Seq<(EnchantmentKind, u8)>
    decreases n,
{
    if n == 0 {
        Seq::empty()
    } else if s[n - 1] > 0 {
        present_prefix(s, (n - 1) as nat).push((kind_at(n - 1), s[n - 1]))
    } else {
        present_prefix(s, (n - 1) as nat)
    }
}

/// The enchantments that a level sequence holds, in catalog order.
pub open spec fn present(s: Seq<u8>) -> Seq<(EnchantmentKind, u8)> {
    present_prefix(s, s.len())
}

/// The enchantments of one item: a level in 0..=7 for every enchantment kind,
/// packed three bits per kind.
#[derive(Clone, Copy, PartialEq, Eq, Structural, Debug)]
pub struct Enchantments(u128);

impl View for Enchantments {
    type V = Seq<u8>;

    /// The level of each kind, indexed by catalog position.
    closed spec fn view(&self) -> Seq<u8> {
        Seq::new(ENCHANTMENT_KIND_COUNT as nat, |i: int| slot(self.0, i as u128) as u8)
    }
}

impl Enchantments {
    /// Every level is within its kind's maximum and the unused bits are clear.
    pub closed spec fn wf(self) -> bool {
        &&& self.0 >> PROFILE_BITS == 0
        &&& forall|k: EnchantmentKind| slot(self.0, k.index() as u128) <= k.max_level()
    }

    #[verifier::type_invariant]
    pub closed spec fn inv(self) -> bool {
        self.wf()
    }

    /// The profile with the level of `kind` replaced by `level`.
    pub closed spec fn with_level(self, kind: EnchantmentKind, level: u8) -> Self {
        Enchantments(
            (self.0 & !(7u128 << (kind.index() as u128 * 3))) | ((level as u128) << (kind.index()
                as u128 * 3)),
        )
    }

    /// The view has one entry per kind, each within that kind's maximum.
    pub proof fn lemma_wf(self)
        requires
            self.inv(),
        ensures
            self@.len() == ENCHANTMENT_KIND_COUNT,
            forall|k: EnchantmentKind| #[trigger] self@[k.index()] <= k.max_level(),
    {
        assert forall|k: EnchantmentKind| #[trigger] self@[k.index()] <= k.max_level() by {
            lemma_kind_at(k);
        }
    }

    /// The view has one entry per kind, each below 8.
    pub proof fn lemma_view(self)
        ensures
            self@.len() == ENCHANTMENT_KIND_COUNT,
            forall|i: int| 0 <= i < ENCHANTMENT_KIND_COUNT ==> #[trigger] self@[i] < 8,
    {
        assert forall|i: int| 0 <= i < ENCHANTMENT_KIND_COUNT implies #[trigger] self@[i] < 8 by {
            lemma_slot(self.0, 0, i as u128, 0);
        }
    }

    /// What `with_level` does to the view, and that it keeps a profile well formed.
    pub proof fn lemma_with_level(self, kind: EnchantmentKind, level: u8)
        requires
            level < 8,
        ensures
            self.with_level(kind, level)@ == self@.update(kind.index(), level),
            self.wf() && level <= kind.max_level() ==> self.with_level(kind, level).wf(),
    {
        let r = self.with_level(kind, level);
        lemma_kind_at(kind);
        let i = kind.index() as u128;
        assert forall|j: int| 0 <= j < ENCHANTMENT_KIND_COUNT implies #[trigger] r@[j] == self@.update(
            kind.index(),
            level,
        )[j] by {
            lemma_slot(self.0, i, j as u128, level as u128);
        }
        assert(r@ =~= self@.update(kind.index(), level));
        if self.wf() && level <= kind.max_level() {
            lemma_slot(self.0, i, 0, level as u128);
            assert forall|k: EnchantmentKind| slot(r.0, k.index() as u128) <= k.max_level() by {
                lemma_kind_at(k);
                lemma_slot(self.0, i, k.index() as u128, level as u128);
            }
        }
    }

    pub fn empty() -> (r: Self)
        ensures
            r@ == Seq::new(ENCHANTMENT_KIND_COUNT as nat, |i: int| 0u8),
    {
        proof {
            lemma_slot(0, 0, 0, 0);
            assert forall|k: EnchantmentKind| slot(0, k.index() as u128) <= k.max_level() by {
                lemma_kind_at(k);
                lemma_slot(0, 0, k.index() as u128, 0);
            }
        }
        let r = Enchantments(0);
        assert forall|j: int| 0 <= j < ENCHANTMENT_KIND_COUNT implies #[trigger] r@[j] == 0 by {
            lemma_slot(0, 0, j as u128, 0);
        }
        assert(r@ =~= Seq::new(ENCHANTMENT_KIND_COUNT as nat, |i: int| 0u8));
        r
    }

    /// Records `enchantment`, replacing whatever level its kind had.
    pub fn set(self, enchantment: Enchantment) -> (r: Self)
        ensures
            r@ == self@.update(enchantment@.0.index(), enchantment@.1),
            r == self.with_level(enchantment@.0, enchantment@.1),
    {
        proof {
            use_type_invariant(&self);
            use_type_invariant(&enchantment);
            enchantment.lemma_level_in_range();
        }
        self.set_level(enchantment.kind(), enchantment.level())
    }

    /// Sets the level of `kind`; a level above the kind's maximum is refused
    /// by the precondition.
    pub fn set_level(self, kind: EnchantmentKind, level: u8) -> (r: Self)
        requires
            level <= kind.max_level(),
        ensures
            r@ == self@.update(kind.index(), level),
            r == self.with_level(kind, level),
    {
        proof {
            use_type_invariant(&self);
            lemma_kind_at(kind);
            self.lemma_with_level(kind, level);
        }
        let factor = kind as u128 * 3;
        Self((self.0 & !(7u128 << factor)) | ((level as u128) << factor))
    }

    pub fn get_level(self, kind: EnchantmentKind) -> (r: u8)
        ensures
            r == self@[kind.index()],
    {
        proof {
            lemma_kind_at(kind);
            lemma_slot(self.0, 0, kind.index() as u128, 0);
        }
        ((self.0 >> (kind as u128 * 3)) & 7u128) as u8
    }

    pub fn get_enchantment(self, kind: EnchantmentKind) -> (r: Enchantment)
        ensures
            r@ == (kind, self@[kind.index()]),
    {
        proof {
            use_type_invariant(&self);
            lemma_kind_at(kind);
        }
        Enchantment::new(kind, self.get_level(kind)).unwrap()
    }

    pub fn has(self, kind: EnchantmentKind) -> (r: bool)
        ensures
            r == (self@[kind.index()] > 0),
    {
        proof {
            lemma_kind_at(kind);
            lemma_slot(self.0, kind.index() as u128, kind.index() as u128, 0);
        }
        self.0 & (7u128 << (kind as u128 * 3)) != 0
    }

    /// Number of kinds with a non-zero level.
    pub fn size(self) -> (r: u8)
        ensures
            r == count_nonzero(self@),
    {
        let mut count: u8 = 0;
        let mut i: u32 = 0;
        while i < ENCHANTMENT_KIND_COUNT
            invariant
                i <= ENCHANTMENT_KIND_COUNT,
                count == count_nonzero(self@.subrange(0, i as int)),
                count <= i,
            decreases ENCHANTMENT_KIND_COUNT - i,
        {
            assert(self@.subrange(0, i + 1).drop_last() =~= self@.subrange(0, i as int));
            let kind = EnchantmentKind::from_index(i).unwrap();
            if self.get_level(kind) != 0 {
                count += 1;
            }
            i += 1;
        }
        assert(self@.subrange(0, ENCHANTMENT_KIND_COUNT as int) =~= self@);
        count
    }

    /// The packed bits: three per kind, in catalog order, the rest clear.
    pub fn raw(self) -> (r: u128)
        ensures
            r >> PROFILE_BITS == 0,
            forall|i: int| 0 <= i < ENCHANTMENT_KIND_COUNT ==> slot(r, i as u128) == self@[i],
    {
        proof {
            use_type_invariant(&self);
            assert forall|i: int| 0 <= i < ENCHANTMENT_KIND_COUNT implies slot(self.0, i as u128)
                == self@[i] by {
                lemma_slot(self.0, 0, i as u128, 0);
            }
        }
        self.0
    }

    /// The enchantments with a non-zero level, in catalog order.
    pub fn iter_contained(self) -> (r: Vec<Enchantment>)
        ensures
            r@.map_values(|e: Enchantment| e@) == present(self@),
    {
        let mut out: Vec<Enchantment> = Vec::new();
        let mut i: u32 = 0;
        while i < ENCHANTMENT_KIND_COUNT
            invariant
                i <= ENCHANTMENT_KIND_COUNT,
                self@.len() == ENCHANTMENT_KIND_COUNT,
                out@.map_values(|e: Enchantment| e@) == present_prefix(self@, i as nat),
            decreases ENCHANTMENT_KIND_COUNT - i,
        {
            let kind = EnchantmentKind::from_index(i).unwrap();
            let e = self.get_enchantment(kind);
            if e.level() > 0 {
                out.push(e);
                assert(out@.map_values(|e: Enchantment| e@) =~= present_prefix(self@, i as nat).push(
                    (kind_at(i as int), self@[i as int]),
                ));
            }
            i += 1;
        }
        out
    }

    /// The kinds with a non-zero level, levels dropped.
    pub fn to_mask(self) -> (r: EnchantmentMask)
        ensures
            r@ == Set::new(|k: EnchantmentKind| self@[k.index()] > 0),
    {
        let mut mask = EnchantmentMask::empty();
        let mut i: u32 = 0;
        while i < ENCHANTMENT_KIND_COUNT
            invariant
                i <= ENCHANTMENT_KIND_COUNT,
                mask@ == Set::new(|k: EnchantmentKind| k.index() < i && self@[k.index()] > 0),
            decreases ENCHANTMENT_KIND_COUNT - i,
        {
            let kind = EnchantmentKind::from_index(i).unwrap();
            if self.has(kind) {
                mask = mask.add(kind);
            }
            proof {
                lemma_kind_at(kind);
            }
            assert(mask@ =~= Set::new(|k: EnchantmentKind| k.index() < i + 1 && self@[k.index()] > 0));
            i += 1;
        }
        assert(mask@ =~= Set::new(|k: EnchantmentKind| self@[k.index()] > 0)) by {
            assert forall|k: EnchantmentKind| k.index() < ENCHANTMENT_KIND_COUNT by {
                lemma_kind_at(k);
            }
        }
        mask
    }

    /// Every kind in catalog order with its level, zero included.
    pub fn iter(self) -> (r: Vec<Enchantment>)
        ensures
            r@.len() == ENCHANTMENT_KIND_COUNT,
            forall|i: int| 0 <= i < r@.len() ==> (#[trigger] r@[i])@ == (kind_at(i), self@[i]),
    {
        let mut out: Vec<Enchantment> = Vec::new();
        let mut i: u32 = 0;
        while i < ENCHANTMENT_KIND_COUNT
            invariant
                i <= ENCHANTMENT_KIND_COUNT,
                out@.len() == i,
                forall|j: int| 0 <= j < out@.len() ==> (#[trigger] out@[j])@ == (kind_at(j), self@[j]),
            decreases ENCHANTMENT_KIND_COUNT - i,
        {
            let kind = EnchantmentKind::from_index(i).unwrap();
            out.push(self.get_enchantment(kind));
            i += 1;
        }
        out
    }
}

} // verus!
