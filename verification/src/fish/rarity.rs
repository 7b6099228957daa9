//! Rarity tiers and the weighted roll that picks one.

use vstd::prelude::*;
use vstd::set_lib::set_int_range;

use crate::fish::chance::{Chance, DrawRecord};

verus! {

/// Rarity tiers, from most to least common.
#[derive(Debug, Clone, Copy, PartialEq, Eq, Hash, PartialOrd, Ord, Structural)]
pub enum Rarity {
    Common,
    Uncommon,
    Rare,
    Epic,
    Legendary,
    Mythic,
}

/// An RGBA colour with one byte per channel.
#[derive(Debug, Clone, Copy, PartialEq, Eq, Structural)]
pub struct RarityColor {
    pub r: u8,
    pub g: u8,
    pub b: u8,
    pub a: u8,
}

/// Number of rarity tiers.
pub open spec fn tier_count() -> nat {
    6
}

/// The rarity at position `i` of the tier order (Common first).
pub open spec fn tier_rarity(i: int) -> Rarity {
    if i == 0 {
        Rarity::Common
    } else if i == 1 {
        Rarity::Uncommon
    } else if i == 2 {
        Rarity::Rare
    } else if i == 3 {
        Rarity::Epic
    } else if i == 4 {
        Rarity::Legendary
    } else {
        Rarity::Mythic
    }
}

/// Position of a rarity in the tier order.
pub open spec fn tier_index(r: Rarity) -> int {
    match r {
        Rarity::Common => 0,
        Rarity::Uncommon => 1,
        Rarity::Rare => 2,
        Rarity::Epic => 3,
        Rarity::Legendary => 4,
        Rarity::Mythic => 5,
    }
}

/// Selection weight of each tier, out of a total of 10000.
pub open spec fn rarity_weight(r: Rarity) -> nat {
    match r {
        Rarity::Common => 5000,
        Rarity::Uncommon => 3000,
        Rarity::Rare => 1500,
        Rarity::Epic => 400,
        Rarity::Legendary => 80,
        Rarity::Mythic => 20,
    }
}

/// Sum of the weights of the first `n` tiers.
pub open spec fn weight_before(n: int) -> nat
    decreases n,
{
    if n <= 0 {
        0
    } else {
        weight_before(n - 1) + rarity_weight(tier_rarity(n - 1))
    }
}

/// Sum of all tier weights.
pub open spec fn spec_total_weight() -> nat {
    weight_before(tier_count() as int)
}

/// The tier that a roll lands in when the tiers are walked in order from
/// tier `i`, each one taking the rolls below its weight and passing the rest
/// on with its weight subtracted. A roll past the last tier falls back to
/// Common.
pub open spec fn roll_from(roll: int, i: int) -> Rarity
    decreases tier_count() - i,
{
    if i >= tier_count() {
        Rarity::Common
    } else if roll < rarity_weight(tier_rarity(i)) {
        tier_rarity(i)
    } else {
        roll_from(roll - rarity_weight(tier_rarity(i)), i + 1)
    }
}

/// The tier that a roll selects.
pub open spec fn rarity_for_roll(roll: int) -> Rarity {
    roll_from(roll, 0)
}

/// The rolls below the total weight that select `r`.
pub open spec fn rolls_selecting(r: Rarity) -> Set<int> {
    Set::new(|x: int| 0 <= x < spec_total_weight() && rarity_for_roll(x) == r)
}

impl Rarity {
    /// Returns the weight value for weighted random selection.
    pub fn weight(&self) -> (w: u32)
        ensures
            w == rarity_weight(*self),
    {
        match self {
            Rarity::Common => 5000,
            Rarity::Uncommon => 3000,
            Rarity::Rare => 1500,
            Rarity::Epic => 400,
            Rarity::Legendary => 80,
            Rarity::Mythic => 20,
        }
    }

    /// Returns the total weight sum.
    pub fn total_weight() -> (t: u32)
        ensures
            t == spec_total_weight(),
            t == 10000,
    {
        proof {
            reveal_with_fuel(weight_before, 7);
        }
        5000 + 3000 + 1500 + 400 + 80 + 20
    }

    /// Returns the display name for this rarity.
    pub fn display_name(&self) -> (name: &'static str)
        ensures
            name@ == spec_display_name(*self),
    {
        match self {
            Rarity::Common => "Common",
            Rarity::Uncommon => "Uncommon",
            Rarity::Rare => "Rare",
            Rarity::Epic => "Epic",
            Rarity::Legendary => "Legendary",
            Rarity::Mythic => "Mythic",
        }
    }

    /// Returns the display colour of this rarity: grey, green, blue,
    /// purple, orange and magenta from Common to Mythic.
    pub fn color(&self) -> (c: RarityColor)
        ensures
            c == spec_color(*self),
    {
        match self {
            Rarity::Common => RarityColor { r: 155, g: 155, b: 155, a: 255 },
            Rarity::Uncommon => RarityColor { r: 85, g: 255, b: 85, a: 255 },
            Rarity::Rare => RarityColor { r: 85, g: 170, b: 255, a: 255 },
            Rarity::Epic => RarityColor { r: 200, g: 85, b: 255, a: 255 },
            Rarity::Legendary => RarityColor { r: 255, g: 170, b: 0, a: 255 },
            Rarity::Mythic => RarityColor { r: 255, g: 85, b: 255, a: 255 },
        }
    }

    /// Returns all rarity variants in order.
    pub fn all() -> (tiers: [Rarity; 6])
        ensures
            forall|i: int| 0 <= i < 6 ==> #[trigger] tiers@[i] == tier_rarity(i),
    {
        [
            Rarity::Common,
            Rarity::Uncommon,
            Rarity::Rare,
            Rarity::Epic,
            Rarity::Legendary,
            Rarity::Mythic,
        ]
    }

    /// The tier that a roll selects: the tiers are walked in order, each
    /// taking the rolls below its weight and passing the rest on with its
    /// weight subtracted. A roll past every tier falls back to Common.
    pub fn from_roll(roll: u32) -> (r: Rarity)
        ensures
            r == rarity_for_roll(roll as int),
    {
        let tiers = Rarity::all();
        let mut remaining = roll;
        let mut i: usize = 0;
        while i < 6
            invariant
                0 <= i <= 6,
                forall|k: int| 0 <= k < 6 ==> #[trigger] tiers@[k] == tier_rarity(k),
                rarity_for_roll(roll as int) == roll_from(remaining as int, i as int),
            decreases 6 - i,
        {
            let rarity = tiers[i];
            let weight = rarity.weight();
            if remaining < weight {
                return rarity;
            }
            remaining = remaining - weight;
            i = i + 1;
        }
        Rarity::Common
    }

    /// Rolls a random rarity based on the weighted probabilities: a uniform
    /// draw below the total weight, mapped to its tier by `from_roll`.
    pub fn roll_random() -> (r: Rarity)
        ensures
            exists|roll: int| 0 <= roll < spec_total_weight() && r == rarity_for_roll(roll),
    {
        let mut chance = Chance::new();
        let r = Self::roll_with(&mut chance);
        assert(rolled(chance@.last(), r));
        r
    }

    /// Rolls a rarity with `chance`: exactly one draw, below the total
    /// weight, whose value `from_roll` maps to the tier returned.
    pub fn roll_with(chance: &mut Chance) -> (r: Rarity)
        ensures
            final(chance)@.len() == old(chance)@.len() + 1,
            final(chance)@.drop_last() == old(chance)@,
            rolled(final(chance)@.last(), r),
    {
        let total_weight = Self::total_weight();
        let roll = chance.below(total_weight);
        assert(chance@.drop_last() =~= old(chance)@);
        Self::from_roll(roll)
    }
}

/// The tier a recorded roll gives: the last draw was made below the total
/// weight and its value selects the tier.
pub open spec fn rolled(draw: DrawRecord, r: Rarity) -> bool {
    draw matches DrawRecord::Below { bound, value } && bound == spec_total_weight() && value < bound
        && r == rarity_for_roll(value as int)
}

/// Display name of each tier.
pub open spec fn spec_display_name(r: Rarity) -> Seq<char> {
    match r {
        Rarity::Common => "Common"@,
        Rarity::Uncommon => "Uncommon"@,
        Rarity::Rare => "Rare"@,
        Rarity::Epic => "Epic"@,
        Rarity::Legendary => "Legendary"@,
        Rarity::Mythic => "Mythic"@,
    }
}

/// Display colour of each tier.
pub open spec fn spec_color(r: Rarity) -> RarityColor {
    match r {
        Rarity::Common => RarityColor { r: 155, g: 155, b: 155, a: 255 },
        Rarity::Uncommon => RarityColor { r: 85, g: 255, b: 85, a: 255 },
        Rarity::Rare => RarityColor { r: 85, g: 170, b: 255, a: 255 },
        Rarity::Epic => RarityColor { r: 200, g: 85, b: 255, a: 255 },
        Rarity::Legendary => RarityColor { r: 255, g: 170, b: 0, a: 255 },
        Rarity::Mythic => RarityColor { r: 255, g: 85, b: 255, a: 255 },
    }
}

/// The running weight sums are, tier by tier, 0, 5000, 8000, 9500, 9900,
/// 9980 and 10000.
proof fn lemma_weight_before_values()
    ensures
        weight_before(0) == 0,
        weight_before(1) == 5000,
        weight_before(2) == 8000,
        weight_before(3) == 9500,
        weight_before(4) == 9900,
        weight_before(5) == 9980,
        weight_before(6) == 10000,
{
    reveal_with_fuel(weight_before, 7);
}

/// Walking the tiers from tier `i`, a roll that lies in tier `j`'s interval
/// of the cumulative weights lands in tier `j`.
proof fn lemma_roll_from_interval(x: int, i: int, j: int)
    requires
        0 <= i <= j < 6,
        weight_before(j) <= x < weight_before(j + 1),
    ensures
        roll_from(x - weight_before(i), i) == tier_rarity(j),
    decreases j - i,
{
    lemma_weight_before_values();
    if i < j {
        assert(weight_before(i + 1) == weight_before(i) + rarity_weight(tier_rarity(i)));
        assert(weight_before(i + 1) <= weight_before(j));
        lemma_roll_from_interval(x, i + 1, j);
        assert(x - weight_before(i) - rarity_weight(tier_rarity(i)) == x - weight_before(i + 1));
    } else {
        assert(weight_before(j + 1) == weight_before(j) + rarity_weight(tier_rarity(j)));
    }
}

/// Weighted-roll law: among the rolls below the total weight, the ones
/// that select a tier form one interval of the running weight sums, and
/// there are exactly as many of them as the tier's weight. A uniform draw
/// below the total weight therefore selects each tier with probability
/// weight / 10000 (Common 50%, Uncommon 30%, Rare 15%, Epic 4%,
/// Legendary 0.8%, Mythic 0.2%).
pub proof fn lemma_roll_distribution(r: Rarity)
    ensures
        rolls_selecting(r) == set_int_range(
            weight_before(tier_index(r)) as int,
            weight_before(tier_index(r) + 1) as int,
        ),
        rolls_selecting(r).finite(),
        rolls_selecting(r).len() == rarity_weight(r),
{
    lemma_weight_before_values();
    let lo = weight_before(tier_index(r)) as int;
    let hi = weight_before(tier_index(r) + 1) as int;
    assert forall|x: int| #[trigger] rolls_selecting(r).contains(x) <==> lo <= x < hi by {
        if 0 <= x < spec_total_weight() {
            let j: int = if x < 5000 {
                0
            } else if x < 8000 {
                1
            } else if x < 9500 {
                2
            } else if x < 9900 {
                3
            } else if x < 9980 {
                4
            } else {
                5
            };
            lemma_roll_from_interval(x, 0, j);
            assert(rarity_for_roll(x) == tier_rarity(j));
        }
    }
    assert(rolls_selecting(r) =~= set_int_range(lo, hi));
    vstd::set_lib::lemma_int_range(lo, hi);
}

/// Every roll below the total weight selects exactly the tier whose
/// interval of running weight sums contains it; no roll is left over.
pub proof fn lemma_roll_lands_in_its_interval(x: int)
    requires
        0 <= x < spec_total_weight(),
    ensures
        weight_before(tier_index(rarity_for_roll(x))) <= x < weight_before(
            tier_index(rarity_for_roll(x)) + 1,
        ),
{
    lemma_weight_before_values();
    let j: int = if x < 5000 {
        0
    } else if x < 8000 {
        1
    } else if x < 9500 {
        2
    } else if x < 9900 {
        3
    } else if x < 9980 {
        4
    } else {
        5
    };
    lemma_roll_from_interval(x, 0, j);
}

/// The tier order lists each rarity once: position and rarity determine
/// each other, and the six weights add up to the total weight of 10000.
pub proof fn lemma_tier_order_is_complete(r: Rarity)
    ensures
        0 <= tier_index(r) < tier_count(),
        tier_rarity(tier_index(r)) == r,
        forall|i: int| 0 <= i < tier_count() ==> tier_index(#[trigger] tier_rarity(i)) == i,
        spec_total_weight() == 10000,
{
    lemma_weight_before_values();
}

/// Every tier can come out of a roll, Mythic included: the roll is a draw
/// below the whole total weight, and for each tier some value below it is
/// turned into that tier (as many values as the tier's weight).
pub proof fn lemma_every_tier_can_be_rolled(r: Rarity)
    ensures
        exists|roll: nat|
            #![trigger rarity_for_roll(roll as int)]
            roll < spec_total_weight() && rolled(DrawRecord::Below { bound: spec_total_weight(), value: roll }, r),
{
    lemma_roll_distribution(r);
    lemma_weight_before_values();
    let lo = weight_before(tier_index(r));
    assert(rolls_selecting(r).contains(lo as int));
    assert(rarity_for_roll(lo as int) == r);
}

} // verus!
