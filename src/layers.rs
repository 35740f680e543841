//! Collision categories and the filters that decide which bodies may touch.
use vstd::prelude::*;
use vstd::seq_lib::lemma_seq_contains_after_push;

verus! {

/// The closed set of interaction categories of the game world.
#[derive(Clone, Copy, Debug, PartialEq, Eq, Structural)]
pub enum GameLayer {
    Default,
    Player,
    Enemy,
    Ground,
    Projectile,
}

/// Position of a layer among the categories; its mask bit is `1 << index`.
pub open spec fn layer_index(l: GameLayer) -> nat {
    match l {
        GameLayer::Default => 0,
        GameLayer::Player => 1,
        GameLayer::Enemy => 2,
        GameLayer::Ground => 3,
        GameLayer::Projectile => 4,
    }
}

/// The mask bit of a layer.
pub open spec fn layer_bit(l: GameLayer) -> u32 {
    match l {
        GameLayer::Default => 1,
        GameLayer::Player => 2,
        GameLayer::Enemy => 4,
        GameLayer::Ground => 8,
        GameLayer::Projectile => 16,
    }
}

/// Whether a bit mask holds a layer.
pub open spec fn mask_has(bits: u32, l: GameLayer) -> bool {
    bits & layer_bit(l) != 0
}

/// The layers that a bit mask holds.
pub open spec fn mask_layers(bits: u32) -> Set<GameLayer> {
    Set::new(|l: GameLayer| mask_has(bits, l))
}

impl GameLayer {
    /// The mask bit of this layer, one bit per category.
    pub fn to_bits(self) -> (r: u32)
        ensures
            r == layer_bit(self),
            r == 1u32 << layer_index(self),
    {
        let r: u32 = match self {
            GameLayer::Default => 1,
            GameLayer::Player => 2,
            GameLayer::Enemy => 4,
            GameLayer::Ground => 8,
            GameLayer::Projectile => 16,
        };
        assert(1u32 << 0u32 == 1 && 1u32 << 1u32 == 2 && 1u32 << 2u32 == 4 && 1u32 << 3u32 == 8
            && 1u32 << 4u32 == 16) by (bit_vector);
        r
    }
}

/// A set of layers, one bit per layer.
#[derive(Clone, Copy, Debug, PartialEq, Eq, Structural)]
pub struct LayerMask {
    pub bits: u32,
}

/// The mask that holds every layer.
pub const ALL_BITS: u32 = 0xffff_ffff;

/// The mask bit of `a` meets the mask bit of `b` only when the layers are equal.
proof fn lemma_bits_distinct(a: GameLayer, b: GameLayer)
    ensures
        (layer_bit(a) & layer_bit(b) != 0) <==> a == b,
        ALL_BITS & layer_bit(a) != 0,
        0u32 & layer_bit(a) == 0,
{
    let x = layer_bit(a);
    let y = layer_bit(b);
    assert(0xffff_ffffu32 & x != 0 && 0u32 & x == 0) by (bit_vector)
        requires x == 1 || x == 2 || x == 4 || x == 8 || x == 16;
    if a == b {
        assert(x & x != 0) by (bit_vector)
            requires x == 1 || x == 2 || x == 4 || x == 8 || x == 16;
    } else {
        assert(x & y == 0) by (bit_vector)
            requires
                x == 1 || x == 2 || x == 4 || x == 8 || x == 16,
                y == 1 || y == 2 || y == 4 || y == 8 || y == 16,
                x != y;
    }
}

/// Adding a bit to a mask adds exactly the layers that the bit holds.
proof fn lemma_or_has(acc: u32, b: u32, l: GameLayer)
    ensures
        mask_has(acc | b, l) <==> (mask_has(acc, l) || mask_has(b, l)),
{
    let c = layer_bit(l);
    assert(((acc | b) & c != 0) <==> (acc & c != 0 || b & c != 0)) by (bit_vector);
}

/// The mask of a list of layers: the bits of its layers, or'd together.
pub open spec fn mask_of(layers: Seq<GameLayer>) -> u32
    decreases layers.len(),
{
    if layers.len() == 0 {
        0
    } else {
        mask_of(layers.drop_last()) | layer_bit(layers.last())
    }
}

/// The mask of enemies, ground and default bodies: the filters of the player and of a
/// projectile.
pub proof fn lemma_target_mask()
    ensures
        mask_of(seq![GameLayer::Enemy, GameLayer::Ground, GameLayer::Default]) == 13,
        layer_bit(GameLayer::Enemy) | layer_bit(GameLayer::Ground) | layer_bit(GameLayer::Default)
            == 13,
{
    let s = seq![GameLayer::Enemy, GameLayer::Ground, GameLayer::Default];
    assert(s.drop_last() =~= seq![GameLayer::Enemy, GameLayer::Ground]);
    assert(s.drop_last().drop_last() =~= seq![GameLayer::Enemy]);
    assert(s.drop_last().drop_last().drop_last() =~= Seq::<GameLayer>::empty());
    reveal_with_fuel(mask_of, 4);
    assert(((0u32 | 4u32) | 8u32) | 1u32 == 13u32) by (bit_vector);
    assert((4u32 | 8u32) | 1u32 == 13u32) by (bit_vector);
}

impl LayerMask {
    /// The layers this mask holds.
    pub open spec fn view(&self) -> Set<GameLayer> {
        mask_layers(self.bits)
    }

    /// The mask that holds every layer.
    pub fn all() -> (r: LayerMask)
        ensures
            r.bits == ALL_BITS,
            forall|l: GameLayer| #[trigger] r.view().contains(l),
    {
        proof {
            assert forall|l: GameLayer| #[trigger] mask_layers(ALL_BITS).contains(l) by {
                lemma_bits_distinct(l, l);
            }
        }
        LayerMask { bits: ALL_BITS }
    }

    /// The mask that holds exactly the given layers.
    pub fn from_layers(layers: &[GameLayer]) -> (r: LayerMask)
        ensures
            r.view() == layers@.to_set(),
            r.bits == mask_of(layers@),
    {
        let mut bits: u32 = 0;
        let mut i: usize = 0;
        proof {
            assert forall|l: GameLayer| !#[trigger] mask_has(0, l) by {
                lemma_bits_distinct(l, l);
            }
        }
        while i < layers.len()
            invariant
                0 <= i <= layers@.len(),
                forall|l: GameLayer| #[trigger] mask_has(bits, l) <==> layers@.subrange(0, i as int).contains(l),
                bits == mask_of(layers@.subrange(0, i as int)),
            decreases layers@.len() - i,
        {
            let b = layers[i].to_bits();
            proof {
                assert forall|l: GameLayer| #[trigger] mask_has(bits | b, l)
                    <==> layers@.subrange(0, i + 1).contains(l) by {
                    lemma_or_has(bits, b, l);
                    lemma_bits_distinct(layers@[i as int], l);
                    assert(layers@.subrange(0, i + 1) =~= layers@.subrange(0, i as int).push(layers@[i as int]));
                    lemma_seq_contains_after_push(layers@.subrange(0, i as int), layers@[i as int], l);
                }
                let pre = layers@.subrange(0, i + 1);
                assert(pre.drop_last() =~= layers@.subrange(0, i as int));
                assert(pre.last() == layers@[i as int]);
            }
            bits = bits | b;
            i = i + 1;
        }
        proof {
            assert(layers@.subrange(0, layers@.len() as int) =~= layers@);
            assert(mask_layers(bits) =~= layers@.to_set());
        }
        LayerMask { bits }
    }

    /// Whether this mask holds `layer`.
    pub fn contains(&self, layer: GameLayer) -> (r: bool)
        ensures
            r == self.view().contains(layer),
    {
        self.bits & layer.to_bits() != 0
    }

    /// Whether this mask and `other` share a layer bit.
    pub fn intersects(&self, other: &LayerMask) -> (r: bool)
        ensures
            r == (self.bits & other.bits != 0),
    {
        self.bits & other.bits != 0
    }
}

/// What a body is and what it may touch: the layers it belongs to, and the layers it
/// accepts contacts from.
#[derive(Clone, Copy, Debug, PartialEq, Eq, Structural)]
pub struct CollisionLayers {
    pub memberships: LayerMask,
    pub filters: LayerMask,
}

/// Two bodies report a contact only when each one's filters meet the other's memberships.
pub open spec fn interacts(a: CollisionLayers, b: CollisionLayers) -> bool {
    a.memberships.bits & b.filters.bits != 0 && b.memberships.bits & a.filters.bits != 0
}

impl CollisionLayers {
    /// A body in the single layer `membership` that accepts contacts from `filters`.
    pub fn new(membership: GameLayer, filters: &[GameLayer]) -> (r: CollisionLayers)
        ensures
            r.memberships.view() == set![membership],
            r.memberships.bits == layer_bit(membership),
            r.filters.view() == filters@.to_set(),
            r.filters.bits == mask_of(filters@),
    {
        let m = membership.to_bits();
        proof {
            assert forall|l: GameLayer| #[trigger] mask_has(m, l) <==> l == membership by {
                lemma_bits_distinct(membership, l);
            }
            assert(mask_layers(m) =~= set![membership]);
        }
        CollisionLayers { memberships: LayerMask { bits: m }, filters: LayerMask::from_layers(filters) }
    }

    /// A body in the single layer `membership` that accepts contacts from every layer.
    pub fn with_all_filters(membership: GameLayer) -> (r: CollisionLayers)
        ensures
            r.memberships.view() == set![membership],
            r.memberships.bits == layer_bit(membership),
            r.filters.bits == ALL_BITS,
    {
        let m = membership.to_bits();
        proof {
            assert forall|l: GameLayer| #[trigger] mask_has(m, l) <==> l == membership by {
                lemma_bits_distinct(membership, l);
            }
            assert(mask_layers(m) =~= set![membership]);
        }
        CollisionLayers { memberships: LayerMask { bits: m }, filters: LayerMask::all() }
    }

    /// Whether a contact between a body with these layers and one with `other` is reported.
    pub fn interacts_with(&self, other: &CollisionLayers) -> (r: bool)
        ensures
            r == interacts(*self, *other),
    {
        self.memberships.intersects(&other.filters) && other.memberships.intersects(&self.filters)
    }
}

/// The layers of a projectile.
pub fn projectile_layers() -> (r: CollisionLayers)
    ensures
        r.memberships.view() == set![GameLayer::Projectile],
        r.filters.view() == set![GameLayer::Enemy, GameLayer::Ground, GameLayer::Default],
        r.memberships.bits == layer_bit(GameLayer::Projectile),
        r.memberships.bits == 16,
        r.filters.bits == layer_bit(GameLayer::Enemy) | layer_bit(GameLayer::Ground) | layer_bit(
            GameLayer::Default,
        ),
        r.filters.bits == 13,
        !r.filters.view().contains(GameLayer::Player),
{
    let r = CollisionLayers::new(
        GameLayer::Projectile,
        &[GameLayer::Enemy, GameLayer::Ground, GameLayer::Default],
    );
    proof {
        let s = seq![GameLayer::Enemy, GameLayer::Ground, GameLayer::Default];
        assert(s.to_set() =~= set![GameLayer::Enemy, GameLayer::Ground, GameLayer::Default]) by {
            assert(s[0] == GameLayer::Enemy && s[1] == GameLayer::Ground && s[2] == GameLayer::Default);
        }
        lemma_target_mask();
    }
    r
}

/// The layers of the player: it belongs to `Player` and touches enemies, ground and
/// default bodies.
pub fn player_layers() -> (r: CollisionLayers)
    ensures
        r.memberships.view() == set![GameLayer::Player],
        r.filters.view() == set![GameLayer::Enemy, GameLayer::Ground, GameLayer::Default],
        r.memberships.bits == layer_bit(GameLayer::Player),
        r.memberships.bits == 2,
        r.filters.bits == layer_bit(GameLayer::Enemy) | layer_bit(GameLayer::Ground) | layer_bit(
            GameLayer::Default,
        ),
        r.filters.bits == 13,
{
    let r = CollisionLayers::new(
        GameLayer::Player,
        &[GameLayer::Enemy, GameLayer::Ground, GameLayer::Default],
    );
    proof {
        let s = seq![GameLayer::Enemy, GameLayer::Ground, GameLayer::Default];
        assert(s.to_set() =~= set![GameLayer::Enemy, GameLayer::Ground, GameLayer::Default]) by {
            assert(s[0] == GameLayer::Enemy && s[1] == GameLayer::Ground && s[2] == GameLayer::Default);
        }
        lemma_target_mask();
    }
    r
}

} // verus!
