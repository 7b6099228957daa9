use which_bowl::fish::{Fish, FishLibrary, LibraryError, Rarity};
use which_bowl::round::{format_reveal_fact, wrong_bowl_message, BowlGuess, GamePhase, GameRound};

#[test]
fn reveal_fact_prefixes_the_species_and_colon() {
    assert_eq!(
        format_reveal_fact("Amphiprioninae", "Lives among sea anemones."),
        "Amphiprioninae: Lives among sea anemones."
    );
}

fn fish(id: &str, facts: &[&str]) -> Fish {
    Fish {
        id: id.to_string(),
        name: "Clownfish".to_string(),
        species: "Amphiprion ocellaris".to_string(),
        facts: facts.iter().map(|f| f.to_string()).collect(),
        image_path: format!("fish/{}.png", id),
        is_real: true,
        fact_is_real: true,
    }
}

const WRONG: [&str; 5] = ["Nope", ":(", "Fish Not Found", "Try again", "So sad"];

#[test]
fn wrong_messages_are_the_fixed_list() {
    for (i, expected) in WRONG.iter().enumerate() {
        assert_eq!(wrong_bowl_message(i), *expected);
    }
}

#[test]
fn new_round_hides_a_readable_fish() {
    let mut library = FishLibrary::new();
    library.add_fish(fish("clown_1", &["Fact A", "Fact B"])).unwrap();
    let mut round = GameRound::new();
    assert_eq!(round.phase(), GamePhase::Playing);
    assert!(round.start_new_round(&mut library, |_: &Fish| true).is_ok());
    assert!(round.correct_bowl() < 3);
    assert_eq!(round.current_fish().unwrap().id, "clown_1");
    assert!(round.current_rarity().is_some());
    assert!(round.current_fact().is_none());
    assert_eq!(round.message(), "");
}

#[test]
fn new_round_without_readable_fish_has_no_fish() {
    let mut library = FishLibrary::new();
    library.add_fish(fish("clown_1", &["Fact A"])).unwrap();
    let mut round = GameRound::new();
    assert!(matches!(
        round.start_new_round(&mut library, |_: &Fish| false),
        Err(LibraryError::NoEligibleFish)
    ));
    assert!(round.current_fish().is_none());
    assert!(round.current_rarity().is_none());
}

#[test]
fn wrong_guess_keeps_the_fish_in_place() {
    let mut library = FishLibrary::new();
    library.add_fish(fish("clown_1", &["Fact A"])).unwrap();
    let mut round = GameRound::new();
    round.start_new_round(&mut library, |_: &Fish| true).unwrap();
    let correct = round.correct_bowl();
    let wrong = (correct + 1) % 3;
    round.set_hover_bowl(Some(wrong));
    assert_eq!(round.hover_bowl(), Some(wrong));
    assert_eq!(round.on_bowl_clicked(wrong), BowlGuess::Wrong);
    assert_eq!(round.phase(), GamePhase::FailedReveal);
    assert_eq!(round.failed_bowl(), Some(wrong));
    assert!(WRONG.contains(&round.message()));
    round.finish_failed_reveal();
    assert_eq!(round.phase(), GamePhase::Playing);
    assert_eq!(round.failed_bowl(), None);
    assert_eq!(round.hover_bowl(), None);
    assert_eq!(round.message(), "");
    assert_eq!(round.correct_bowl(), correct);
    assert_eq!(round.on_bowl_clicked(correct), BowlGuess::Correct);
    assert_eq!(round.phase(), GamePhase::Revealing);
    assert_eq!(round.current_fact(), Some("Fact A"));
}

#[test]
fn reveal_picks_one_of_the_fish_facts_and_continues() {
    let mut library = FishLibrary::new();
    library.add_fish(fish("clown_1", &["Fact A", "Fact B"])).unwrap();
    let mut round = GameRound::new();
    round.start_new_round(&mut library, |_: &Fish| true).unwrap();
    let correct = round.correct_bowl();
    assert_eq!(round.on_bowl_clicked(correct), BowlGuess::Correct);
    let fact = round.current_fact().unwrap().to_string();
    assert!(fact == "Fact A" || fact == "Fact B");
    assert!(round.continue_after_reveal(&mut library, |_: &Fish| true).is_ok());
    assert_eq!(round.phase(), GamePhase::Playing);
    assert!(round.current_fact().is_none());
    assert!(round.correct_bowl() < 3);
}

#[test]
fn correct_click_without_fish_still_reveals() {
    let mut round = GameRound::new();
    assert_eq!(round.correct_bowl(), 0);
    assert_eq!(round.on_bowl_clicked(0), BowlGuess::Correct);
    assert_eq!(round.phase(), GamePhase::Revealing);
    assert!(round.current_fact().is_none());
    let rarity: Option<Rarity> = round.current_rarity();
    assert!(rarity.is_none());
}
