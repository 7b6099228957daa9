use which_bowl::fish::{Rarity, RarityColor};

#[test]
fn weights_match_the_documented_table() {
    assert_eq!(Rarity::Common.weight(), 5000);
    assert_eq!(Rarity::Uncommon.weight(), 3000);
    assert_eq!(Rarity::Rare.weight(), 1500);
    assert_eq!(Rarity::Epic.weight(), 400);
    assert_eq!(Rarity::Legendary.weight(), 80);
    assert_eq!(Rarity::Mythic.weight(), 20);
    assert_eq!(Rarity::total_weight(), 10000);
    let sum: u32 = Rarity::all().iter().map(|r| r.weight()).sum();
    assert_eq!(sum, Rarity::total_weight());
}

#[test]
fn all_lists_tiers_in_order() {
    assert_eq!(
        Rarity::all(),
        [
            Rarity::Common,
            Rarity::Uncommon,
            Rarity::Rare,
            Rarity::Epic,
            Rarity::Legendary,
            Rarity::Mythic
        ]
    );
}

#[test]
fn display_names() {
    let names: Vec<&str> = Rarity::all().iter().map(|r| r.display_name()).collect();
    assert_eq!(names, vec!["Common", "Uncommon", "Rare", "Epic", "Legendary", "Mythic"]);
}

#[test]
fn colors() {
    let rgb = |r: u8, g: u8, b: u8| RarityColor { r, g, b, a: 255 };
    assert_eq!(Rarity::Common.color(), rgb(155, 155, 155));
    assert_eq!(Rarity::Uncommon.color(), rgb(85, 255, 85));
    assert_eq!(Rarity::Rare.color(), rgb(85, 170, 255));
    assert_eq!(Rarity::Epic.color(), rgb(200, 85, 255));
    assert_eq!(Rarity::Legendary.color(), rgb(255, 170, 0));
    assert_eq!(Rarity::Mythic.color(), rgb(255, 85, 255));
}

#[test]
fn roll_boundaries_select_the_documented_intervals() {
    assert_eq!(Rarity::from_roll(0), Rarity::Common);
    assert_eq!(Rarity::from_roll(4999), Rarity::Common);
    assert_eq!(Rarity::from_roll(5000), Rarity::Uncommon);
    assert_eq!(Rarity::from_roll(7999), Rarity::Uncommon);
    assert_eq!(Rarity::from_roll(8000), Rarity::Rare);
    assert_eq!(Rarity::from_roll(9499), Rarity::Rare);
    assert_eq!(Rarity::from_roll(9500), Rarity::Epic);
    assert_eq!(Rarity::from_roll(9899), Rarity::Epic);
    assert_eq!(Rarity::from_roll(9900), Rarity::Legendary);
    assert_eq!(Rarity::from_roll(9979), Rarity::Legendary);
    assert_eq!(Rarity::from_roll(9980), Rarity::Mythic);
    assert_eq!(Rarity::from_roll(9999), Rarity::Mythic);
    assert_eq!(Rarity::from_roll(10000), Rarity::Common);
}

#[test]
fn every_roll_counts_toward_its_tier_weight() {
    for rarity in Rarity::all() {
        let hits = (0..Rarity::total_weight())
            .filter(|&roll| Rarity::from_roll(roll) == rarity)
            .count() as u32;
        assert_eq!(hits, rarity.weight());
    }
}

#[test]
fn random_rolls_are_tiers() {
    let mut common = 0;
    for _ in 0..2000 {
        if Rarity::roll_random() == Rarity::Common {
            common += 1;
        }
    }
    assert!(common > 700 && common < 1300, "common rolled {} times", common);
}
