//! One round of the game: which bowl hides the fish, what a click on a
//! bowl does, and how the round moves between playing, a failed reveal and
//! the fish reveal.

use vstd::prelude::*;

use crate::fish::chance::{texts, Chance, DrawRecord};
use crate::fish::library::{extends, picks_select, recorded, reports_eligible, selected_after_draws};
use crate::fish::rarity::{rarity_for_roll, rolled};
use crate::fish::rarity::spec_total_weight;
use crate::fish::{Fish, FishLibrary, FishView, LibraryError, LibraryIssue, Rarity};

verus! {

/// Number of bowls on the table.
pub const BOWL_COUNT: usize = 3;

/// Number of messages shown after a wrong guess.
pub const WRONG_BOWL_MESSAGE_COUNT: usize = 5;

/// The message shown after a wrong guess, by position in the list.
pub open spec fn spec_wrong_bowl_message(index: int) -> Seq<char> {
    if index == 0 {
        "Nope"@
    } else if index == 1 {
        ":("@
    } else if index == 2 {
        "Fish Not Found"@
    } else if index == 3 {
        "Try again"@
    } else {
        "So sad"@
    }
}

/// The messages shown after a wrong guess: "Nope", ":(", "Fish Not Found",
/// "Try again" and "So sad".
pub fn wrong_bowl_message(index: usize) -> (message: &'static str)
    requires
        index < WRONG_BOWL_MESSAGE_COUNT,
    ensures
        message@ == spec_wrong_bowl_message(index as int),
{
    if index == 0 {
        "Nope"
    } else if index == 1 {
        ":("
    } else if index == 2 {
        "Fish Not Found"
    } else if index == 3 {
        "Try again"
    } else {
        "So sad"
    }
}

/// `message` is one of the wrong-guess messages.
pub open spec fn is_wrong_bowl_message(message: Seq<char>) -> bool {
    exists|i: int| 0 <= i < WRONG_BOWL_MESSAGE_COUNT && message == #[trigger] spec_wrong_bowl_message(i)
}

/// The text shown under a revealed fish: its species, a colon, the fact.
pub open spec fn spec_reveal_fact(species: Seq<char>, fact: Seq<char>) -> Seq<char> {
    species + ": "@ + fact
}

/// Formats the fact shown under a revealed fish, prefixed by its species.
pub fn format_reveal_fact(species: &str, fact: &str) -> (text: String)
    ensures
        text@ == spec_reveal_fact(species@, fact@),
{
    let mut text = String::from_str(species);
    text.append(": ");
    text.append(fact);
    text
}

/// Where the round is.
#[derive(Debug, Clone, Copy, PartialEq, Eq, Structural)]
pub enum GamePhase {
    /// The bowls are closed and a guess is awaited.
    Playing,
    /// A wrong bowl is being lifted to show it is empty.
    FailedReveal,
    /// The fish rises from the right bowl.
    Revealing,
}

/// What a click on a bowl turned out to be.
#[derive(Debug, Clone, Copy, PartialEq, Eq, Structural)]
pub enum BowlGuess {
    Correct,
    Wrong,
}

/// The state of a round.
pub struct GameRound {
    phase: GamePhase,
    correct_bowl: usize,
    message: String,
    hover_bowl: Option<usize>,
    failed_bowl: Option<usize>,
    current_fish: Option<Fish>,
    current_fact: Option<String>,
    current_rarity: Option<Rarity>,
}

/// The contents of a round as plain values.
pub struct RoundView {
    pub phase: GamePhase,
    pub correct_bowl: int,
    pub message: Seq<char>,
    pub hover_bowl: Option<usize>,
    pub failed_bowl: Option<usize>,
    pub current_fish: Option<FishView>,
    pub current_fact: Option<Seq<char>>,
    pub current_rarity: Option<Rarity>,
}

/// The view of an optional fish.
pub open spec fn fish_view_of(fish: Option<Fish>) -> Option<FishView> {
    match fish {
        Some(f) => Some(f@),
        None => None,
    }
}

/// The view of an optional string.
pub open spec fn text_view_of(text: Option<String>) -> Option<Seq<char>> {
    match text {
        Some(s) => Some(s@),
        None => None,
    }
}

impl View for GameRound {
    type V = RoundView;

    closed spec fn view(&self) -> RoundView {
        RoundView {
            phase: self.phase,
            correct_bowl: self.correct_bowl as int,
            message: self.message@,
            hover_bowl: self.hover_bowl,
            failed_bowl: self.failed_bowl,
            current_fish: fish_view_of(self.current_fish),
            current_fact: text_view_of(self.current_fact),
            current_rarity: self.current_rarity,
        }
    }
}

/// The round invariant: the fish hides under one of the three bowls, a
/// hovered or failed bowl is one of them, a failed reveal names its bowl,
/// a fish and its rarity come together, and a chosen fact belongs to the
/// current fish.
pub open spec fn round_invariant(r: RoundView) -> bool {
    &&& 0 <= r.correct_bowl < BOWL_COUNT
    &&& r.hover_bowl matches Some(b) ==> b < BOWL_COUNT
    &&& r.failed_bowl matches Some(b) ==> b < BOWL_COUNT
    &&& r.phase == GamePhase::FailedReveal ==> r.failed_bowl is Some
    &&& (r.current_fish is Some <==> r.current_rarity is Some)
    &&& r.current_fact matches Some(fact) ==> (r.current_fish matches Some(f) && f.facts.contains(fact))
}

/// What a click on `bowl` can lead to. The right bowl starts the reveal
/// and, when there is a fish, picks one of its facts (none when it has
/// none); a wrong bowl starts the failed reveal of that bowl with one of
/// the wrong-guess messages. The fish stays where it is either way.
pub open spec fn click_step(before: RoundView, after: RoundView, bowl: int) -> bool {
    &&& after.correct_bowl == before.correct_bowl
    &&& after.hover_bowl == before.hover_bowl
    &&& after.current_fish == before.current_fish
    &&& after.current_rarity == before.current_rarity
    &&& if bowl == before.correct_bowl {
        &&& after.phase == GamePhase::Revealing
        &&& after.failed_bowl == before.failed_bowl
        &&& after.message == before.message
        &&& match before.current_fish {
            Some(f) => {
                &&& (after.current_fact is None <==> f.facts.len() == 0)
                &&& after.current_fact matches Some(fact) ==> f.facts.contains(fact)
            },
            None => after.current_fact == before.current_fact,
        }
    } else {
        &&& after.phase == GamePhase::FailedReveal
        &&& after.failed_bowl == Some(bowl as usize)
        &&& is_wrong_bowl_message(after.message)
        &&& after.current_fact == before.current_fact
    }
}

/// The round once the failed reveal is over: back to playing, with the
/// failed bowl, the hover and the message cleared.
pub open spec fn after_failed_reveal(before: RoundView) -> RoundView {
    RoundView {
        phase: GamePhase::Playing,
        failed_bowl: None,
        hover_bowl: None,
        message: Seq::empty(),
        ..before
    }
}

/// What starting a new round can lead to, given the library before and
/// after it and the fish judged eligible (image path inside the assets
/// directory and reported readable): the fish is hidden under any of the
/// three bowls, the message and fact are cleared, a rarity is rolled, and
/// an eligible fish is drawn from the library as
/// `select_random_playtest_fish` does; when no fish is eligible the round
/// has neither fish nor rarity and the error says so.
pub open spec fn new_round_step(
    before: RoundView,
    after: RoundView,
    library_before: crate::fish::library::FishLibraryView,
    library_after: crate::fish::library::FishLibraryView,
    readable: Set<Seq<char>>,
    result: Result<(), LibraryError>,
) -> bool {
    &&& 0 <= after.correct_bowl < BOWL_COUNT
    &&& after.message == Seq::<char>::empty()
    &&& after.current_fact is None
    &&& after.phase == before.phase
    &&& after.hover_bowl == before.hover_bowl
    &&& after.failed_bowl == before.failed_bowl
    &&& library_after.catalog == library_before.catalog
    &&& library_after.history_limit == library_before.history_limit
    &&& match result {
        Ok(()) => {
            &&& readable.len() > 0
            &&& after.current_fish matches Some(f) && {
                &&& library_before.catalog.contains_key(f.id)
                &&& f == library_before.catalog[f.id]@
                &&& readable.contains(f.id)
                &&& selected_after_draws(library_before.recent, readable, f.id)
                &&& library_after.recent == recorded(library_before.recent, f.id, library_before.history_limit)
            }
            &&& after.current_rarity matches Some(r)
                && exists|roll: int| 0 <= roll < spec_total_weight() && r == #[trigger] rarity_for_roll(roll)
        },
        Err(e) => {
            &&& e@ == LibraryIssue::NoEligibleFish
            &&& readable.len() == 0
            &&& after.current_fish is None
            &&& after.current_rarity is None
            &&& library_after.recent == library_before.recent
        },
    }
}

/// The draws a new round made, against the round it produced: first the
/// bowl, a draw below `BOWL_COUNT` whose value is where the fish hides;
/// then the rarity roll, whose tier is the round's rarity; then the
/// selection's draws, after which the round's fish is the one
/// `picks_select` gives among the eligible fish (no draws when none is).
pub open spec fn new_round_drawn(
    after: RoundView,
    library_before: crate::fish::library::FishLibraryView,
    readable: Set<Seq<char>>,
    result: Result<(), LibraryError>,
    draws: Seq<DrawRecord>,
) -> bool {
    &&& draws.len() >= 2
    &&& 0 <= after.correct_bowl < BOWL_COUNT
    &&& draws[0] == (DrawRecord::Below { bound: BOWL_COUNT as nat, value: after.correct_bowl as nat })
    &&& draws[1] matches DrawRecord::Below { bound, value } && bound == spec_total_weight() && value < bound
    &&& match result {
        Ok(()) => {
            &&& rolled(draws[1], after.current_rarity.unwrap())
            &&& after.current_fish matches Some(f) && picks_select(library_before.recent, readable, draws.skip(2), f.id)
        },
        Err(_) => draws.len() == 2,
    }
}

/// The draws a click made, against the round it produced: a click on the
/// right bowl with a fish draws one fact among the fish's facts, and that
/// draw is the fact shown; a click on the right bowl without a fish draws
/// nothing; a click on a wrong bowl draws a number below
/// `WRONG_BOWL_MESSAGE_COUNT` and shows the message at that position.
pub open spec fn click_drawn(before: RoundView, after: RoundView, bowl: int, draws: Seq<DrawRecord>) -> bool {
    if bowl == before.correct_bowl {
        match before.current_fish {
            Some(f) => draws == seq![DrawRecord::Picked { among: f.facts, picked: after.current_fact }],
            None => draws.len() == 0,
        }
    } else {
        &&& draws.len() == 1
        &&& draws[0] matches DrawRecord::Below { bound, value } && bound == WRONG_BOWL_MESSAGE_COUNT
            && value < bound && after.message == spec_wrong_bowl_message(value as int)
    }
}

impl GameRound {
    /// The round's internal invariant.
    pub closed spec fn wf(&self) -> bool {
        round_invariant(self@)
    }

    /// A round before its first start: playing, no fish, no message.
    pub fn new() -> (round: GameRound)
        ensures
            round.wf(),
            round@.phase == GamePhase::Playing,
            round@.correct_bowl == 0,
            round@.message == Seq::<char>::empty(),
            round@.hover_bowl is None,
            round@.failed_bowl is None,
            round@.current_fish is None,
            round@.current_fact is None,
            round@.current_rarity is None,
    {
        GameRound {
            phase: GamePhase::Playing,
            correct_bowl: 0,
            message: String::new(),
            hover_bowl: None,
            failed_bowl: None,
            current_fish: None,
            current_fact: None,
            current_rarity: None,
        }
    }

    /// Starts a new round: hides the fish under a random bowl, clears the
    /// message and fact, rolls a rarity and draws a fish whose image path
    /// stays inside the assets directory and whose image
    /// `image_is_readable` reports readable.
    pub fn start_new_round<F: Fn(&Fish) -> bool>(
        &mut self,
        library: &mut FishLibrary,
        image_is_readable: F,
    ) -> (result: Result<(), LibraryError>)
        requires
            old(self).wf(),
            old(library).wf(),
            forall|fish: &Fish| #[trigger] image_is_readable.requires((fish,)),
        ensures
            final(self).wf(),
            final(library).wf(),
            exists|readable: Set<Seq<char>>|
                #[trigger] reports_eligible(image_is_readable, old(library)@.catalog, readable)
                && new_round_step(old(self)@, final(self)@, old(library)@, final(library)@, readable, result),
    {
        let mut chance = Chance::new();
        self.start_new_round_with(library, image_is_readable, &mut chance)
    }

    /// `start_new_round` with its draws made by `chance`, in the order the
    /// round makes them, as `new_round_drawn` states.
    pub fn start_new_round_with<F: Fn(&Fish) -> bool>(
        &mut self,
        library: &mut FishLibrary,
        image_is_readable: F,
        chance: &mut Chance,
    ) -> (result: Result<(), LibraryError>)
        requires
            old(self).wf(),
            old(library).wf(),
            forall|fish: &Fish| #[trigger] image_is_readable.requires((fish,)),
        ensures
            final(self).wf(),
            final(library).wf(),
            extends(old(chance)@, final(chance)@),
            exists|readable: Set<Seq<char>>|
                #[trigger] reports_eligible(image_is_readable, old(library)@.catalog, readable)
                && new_round_step(old(self)@, final(self)@, old(library)@, final(library)@, readable, result)
                && new_round_drawn(final(self)@, old(library)@, readable, result, final(chance)@.skip(old(chance)@.len() as int)),
    {
        let ghost start_draws = chance@;
        let bowl = chance.below(3);
        self.correct_bowl = bowl as usize;
        self.message = String::new();
        self.current_fact = None;
        let rarity = Rarity::roll_with(chance);
        let ghost rolled_draws = chance@;
        self.current_rarity = Some(rarity);
        let ghost library_before = library@;
        let selected = library.select_random_playtest_fish_with(image_is_readable, chance);
        let ghost chosen = selected;
        let outcome: Result<Fish, LibraryError> = match selected {
            Ok(fish) => Ok(fish.clone()),
            Err(e) => Err(e),
        };
        let ghost readable = choose|readable: Set<Seq<char>>|
            #[trigger] reports_eligible(image_is_readable, library_before.catalog, readable)
            && crate::fish::library::selection_agrees(
                chosen,
                library_before,
                library@,
                readable,
                LibraryIssue::NoEligibleFish,
            )
            && crate::fish::library::selection_drawn(
                chosen,
                library_before.recent,
                readable,
                chance@.skip(rolled_draws.len() as int),
            );
        proof {
            let made = chance@.skip(start_draws.len() as int);
            assert(rolled_draws.len() == start_draws.len() + 2);
            assert(chance@.subrange(0, rolled_draws.len() as int) == rolled_draws);
            assert(rolled_draws.drop_last() == start_draws.push(DrawRecord::Below { bound: 3, value: bowl as nat }));
            assert(made[0] == chance@[start_draws.len() as int]);
            assert(rolled_draws.drop_last()[start_draws.len() as int] == rolled_draws[start_draws.len() as int]);
            assert(chance@[start_draws.len() as int] == rolled_draws[start_draws.len() as int]);
            assert(made[0] == DrawRecord::Below { bound: 3, value: bowl as nat });
            assert(made[1] == rolled_draws.last());
            assert(made.skip(2) =~= chance@.skip(rolled_draws.len() as int));
            assert(chance@.subrange(0, start_draws.len() as int) =~= rolled_draws.subrange(0, start_draws.len() as int));
            assert(rolled_draws.subrange(0, start_draws.len() as int) =~= start_draws);
        }
        match outcome {
            Ok(fish) => {
                self.current_fish = Some(fish);
                assert(new_round_step(old(self)@, self@, library_before, library@, readable, Ok(())));
                assert(new_round_drawn(self@, library_before, readable, Ok(()), chance@.skip(start_draws.len() as int)));
                Ok(())
            },
            Err(e) => {
                self.current_fish = None;
                self.current_rarity = None;
                assert(new_round_step(old(self)@, self@, library_before, library@, readable, Err(e)));
                assert(new_round_drawn(self@, library_before, readable, Err(e), chance@.skip(start_draws.len() as int)));
                Err(e)
            },
        }
    }

    /// Marks the bowl under the pointer, if any.
    pub fn set_hover_bowl(&mut self, bowl: Option<usize>)
        requires
            old(self).wf(),
            bowl matches Some(b) ==> b < BOWL_COUNT,
        ensures
            final(self).wf(),
            final(self)@ == (RoundView { hover_bowl: bowl, ..old(self)@ }),
    {
        self.hover_bowl = bowl;
    }

    /// A click on `bowl`: the right bowl starts the reveal with one of the
    /// current fish's facts; a wrong one starts the failed reveal with one of
    /// the wrong-guess messages. The fish does not move.
    pub fn on_bowl_clicked(&mut self, bowl: usize) -> (guess: BowlGuess)
        requires
            old(self).wf(),
            bowl < BOWL_COUNT,
        ensures
            final(self).wf(),
            click_step(old(self)@, final(self)@, bowl as int),
            guess == (if bowl as int == old(self)@.correct_bowl { BowlGuess::Correct } else { BowlGuess::Wrong }),
    {
        let mut chance = Chance::new();
        self.on_bowl_clicked_with(bowl, &mut chance)
    }

    /// `on_bowl_clicked` with its draw made by `chance`: the fact shown, or
    /// the wrong-guess message, is the outcome of that draw, as
    /// `click_drawn` states.
    pub fn on_bowl_clicked_with(&mut self, bowl: usize, chance: &mut Chance) -> (guess: BowlGuess)
        requires
            old(self).wf(),
            bowl < BOWL_COUNT,
        ensures
            final(self).wf(),
            click_step(old(self)@, final(self)@, bowl as int),
            guess == (if bowl as int == old(self)@.correct_bowl { BowlGuess::Correct } else { BowlGuess::Wrong }),
            extends(old(chance)@, final(chance)@),
            click_drawn(old(self)@, final(self)@, bowl as int, final(chance)@.skip(old(chance)@.len() as int)),
    {
        let ghost start_draws = chance@;
        if bowl == self.correct_bowl {
            match &self.current_fish {
                Some(fish) => {
                    let fact = chance.pick_from_slice(&fish.facts);
                    proof {
                        if let Some(s) = &fact {
                            let i = choose|i: int| 0 <= i < fish.facts@.len() && #[trigger] fish.facts@[i]@ == s@;
                            assert(fish@.facts[i] == s@);
                        }
                        assert(texts(fish.facts@) =~= fish@.facts);
                        assert(chance@.skip(start_draws.len() as int) =~= seq![
                            DrawRecord::Picked { among: fish@.facts, picked: text_view_of(fact) },
                        ]);
                    }
                    self.current_fact = fact;
                },
                None => {},
            }
            self.phase = GamePhase::Revealing;
            proof {
                assert(chance@.subrange(0, start_draws.len() as int) =~= start_draws);
                if old(self)@.current_fish is None {
                    assert(chance@.skip(start_draws.len() as int) =~= Seq::<DrawRecord>::empty());
                }
            }
            BowlGuess::Correct
        } else {
            let index = chance.below(5);
            self.message = String::from_str(wrong_bowl_message(index as usize));
            proof {
                assert(self.message@ == spec_wrong_bowl_message(index as int));
                assert(chance@.subrange(0, start_draws.len() as int) =~= start_draws);
                assert(chance@.skip(start_draws.len() as int) =~= seq![DrawRecord::Below { bound: 5, value: index as nat }]);
            }
            self.failed_bowl = Some(bowl);
            self.phase = GamePhase::FailedReveal;
            BowlGuess::Wrong
        }
    }

    /// Ends the failed reveal: back to playing with the failed bowl, the
    /// hover and the message cleared. The fish stays under the same bowl.
    pub fn finish_failed_reveal(&mut self)
        requires
            old(self).wf(),
        ensures
            final(self).wf(),
            final(self)@ == after_failed_reveal(old(self)@),
    {
        self.failed_bowl = None;
        self.hover_bowl = None;
        self.message = String::new();
        self.phase = GamePhase::Playing;
        assert(self@.message =~= Seq::<char>::empty());
    }

    /// Ends the reveal: starts a new round and goes back to playing.
    pub fn continue_after_reveal<F: Fn(&Fish) -> bool>(
        &mut self,
        library: &mut FishLibrary,
        image_is_readable: F,
    ) -> (result: Result<(), LibraryError>)
        requires
            old(self).wf(),
            old(library).wf(),
            forall|fish: &Fish| #[trigger] image_is_readable.requires((fish,)),
        ensures
            final(self).wf(),
            final(library).wf(),
            final(self)@.phase == GamePhase::Playing,
            exists|readable: Set<Seq<char>>|
                #[trigger] reports_eligible(image_is_readable, old(library)@.catalog, readable)
                && new_round_step(
                    old(self)@,
                    RoundView { phase: old(self)@.phase, ..final(self)@ },
                    old(library)@,
                    final(library)@,
                    readable,
                    result,
                ),
    {
        let mut chance = Chance::new();
        self.continue_after_reveal_with(library, image_is_readable, &mut chance)
    }

    /// `continue_after_reveal` with the new round's draws made by `chance`,
    /// as `new_round_drawn` states.
    pub fn continue_after_reveal_with<F: Fn(&Fish) -> bool>(
        &mut self,
        library: &mut FishLibrary,
        image_is_readable: F,
        chance: &mut Chance,
    ) -> (result: Result<(), LibraryError>)
        requires
            old(self).wf(),
            old(library).wf(),
            forall|fish: &Fish| #[trigger] image_is_readable.requires((fish,)),
        ensures
            final(self).wf(),
            final(library).wf(),
            final(self)@.phase == GamePhase::Playing,
            extends(old(chance)@, final(chance)@),
            exists|readable: Set<Seq<char>>|
                #[trigger] reports_eligible(image_is_readable, old(library)@.catalog, readable)
                && new_round_step(
                    old(self)@,
                    RoundView { phase: old(self)@.phase, ..final(self)@ },
                    old(library)@,
                    final(library)@,
                    readable,
                    result,
                )
                && new_round_drawn(final(self)@, old(library)@, readable, result, final(chance)@.skip(old(chance)@.len() as int)),
    {
        let result = self.start_new_round_with(library, image_is_readable, chance);
        self.phase = GamePhase::Playing;
        result
    }

    /// Where the round is.
    pub fn phase(&self) -> (phase: GamePhase)
        ensures
            phase == self@.phase,
    {
        self.phase
    }

    /// The bowl that hides the fish.
    pub fn correct_bowl(&self) -> (bowl: usize)
        requires
            self.wf(),
        ensures
            bowl == self@.correct_bowl,
            bowl < BOWL_COUNT,
    {
        self.correct_bowl
    }

    /// The wrong-guess message being shown, empty when there is none.
    pub fn message(&self) -> (message: &str)
        ensures
            message@ == self@.message,
    {
        self.message.as_str()
    }

    /// The bowl under the pointer, if any.
    pub fn hover_bowl(&self) -> (bowl: Option<usize>)
        ensures
            bowl == self@.hover_bowl,
    {
        self.hover_bowl
    }

    /// The bowl whose failed reveal is being shown, if any.
    pub fn failed_bowl(&self) -> (bowl: Option<usize>)
        ensures
            bowl == self@.failed_bowl,
    {
        self.failed_bowl
    }

    /// The fish of this round, if one could be drawn.
    pub fn current_fish(&self) -> (fish: Option<&Fish>)
        ensures
            match fish {
                Some(f) => self@.current_fish == Some(f@),
                None => self@.current_fish is None,
            },
    {
        match &self.current_fish {
            Some(f) => Some(f),
            None => None,
        }
    }

    /// The fact chosen for the reveal, if any.
    pub fn current_fact(&self) -> (fact: Option<&str>)
        ensures
            match fact {
                Some(s) => self@.current_fact == Some(s@),
                None => self@.current_fact is None,
            },
    {
        match &self.current_fact {
            Some(s) => Some(s.as_str()),
            None => None,
        }
    }

    /// The rarity rolled for this round, if it has a fish.
    pub fn current_rarity(&self) -> (rarity: Option<Rarity>)
        ensures
            rarity == self@.current_rarity,
    {
        self.current_rarity
    }
}

/// The round invariant as seen from outside: the fish hides under one of
/// the three bowls, and a chosen fact belongs to the fish of the round.
pub proof fn lemma_round_invariant(round: &GameRound)
    requires
        round.wf(),
    ensures
        round_invariant(round@),
{
}

/// A wrong guess never moves the fish: after a click on a wrong bowl and
/// the end of the failed reveal, the round is playing again with the fish
/// under the same bowl, and a click on that bowl then starts the reveal.
pub proof fn lemma_wrong_guess_keeps_fish(
    start: RoundView,
    failed: RoundView,
    retry: RoundView,
    wrong_bowl: int,
)
    requires
        wrong_bowl != start.correct_bowl,
        click_step(start, failed, wrong_bowl),
        click_step(after_failed_reveal(failed), retry, start.correct_bowl),
    ensures
        failed.phase == GamePhase::FailedReveal,
        failed.failed_bowl == Some(wrong_bowl as usize),
        after_failed_reveal(failed).phase == GamePhase::Playing,
        after_failed_reveal(failed).correct_bowl == start.correct_bowl,
        after_failed_reveal(failed).message == Seq::<char>::empty(),
        retry.phase == GamePhase::Revealing,
        retry.correct_bowl == start.correct_bowl,
        retry.current_fish == start.current_fish,
{
}

/// Every click lands in exactly one of the two outcomes: the reveal when
/// it hits the fish's bowl, the failed reveal of the clicked bowl (with a
/// wrong-guess message) otherwise.
pub proof fn lemma_click_outcomes(before: RoundView, after: RoundView, bowl: int)
    requires
        click_step(before, after, bowl),
    ensures
        (after.phase == GamePhase::Revealing) <==> bowl == before.correct_bowl,
        (after.phase == GamePhase::FailedReveal) <==> bowl != before.correct_bowl,
        after.phase == GamePhase::FailedReveal ==> after.failed_bowl == Some(bowl as usize) && is_wrong_bowl_message(after.message),
{
}

/// Each of the three bowls can hide the fish: a new round hides it under
/// the value of a draw below `BOWL_COUNT`, so whatever that draw gives,
/// any bowl from 0 to 2, the same round with the fish under that bowl is
/// what the draws describe.
pub proof fn lemma_every_bowl_can_hide_the_fish(
    after: RoundView,
    library_before: crate::fish::library::FishLibraryView,
    readable: Set<Seq<char>>,
    result: Result<(), LibraryError>,
    draws: Seq<DrawRecord>,
    bowl: nat,
)
    requires
        new_round_drawn(after, library_before, readable, result, draws),
        bowl < BOWL_COUNT,
    ensures
        draws[0] matches DrawRecord::Below { bound, value } && bound == BOWL_COUNT && value == after.correct_bowl,
        new_round_drawn(
            RoundView { correct_bowl: bowl as int, ..after },
            library_before,
            readable,
            result,
            draws.update(0, DrawRecord::Below { bound: BOWL_COUNT as nat, value: bowl }),
        ),
{
    let changed = draws.update(0, DrawRecord::Below { bound: BOWL_COUNT as nat, value: bowl });
    assert(changed.skip(2) =~= draws.skip(2));
}

/// Every fact of the fish can be the one revealed: a click on the right
/// bowl shows what a choice among all the fish's facts gave, so whichever
/// fact that choice gives, the same click shows that fact.
pub proof fn lemma_every_fact_can_be_revealed(
    before: RoundView,
    after: RoundView,
    draws: Seq<DrawRecord>,
    fish: FishView,
    i: int,
)
    requires
        click_drawn(before, after, before.correct_bowl, draws),
        before.current_fish == Some(fish),
        0 <= i < fish.facts.len(),
    ensures
        draws.len() == 1,
        draws[0] matches DrawRecord::Picked { among, picked } && among == fish.facts && picked == after.current_fact,
        click_drawn(
            before,
            RoundView { current_fact: Some(fish.facts[i]), ..after },
            before.correct_bowl,
            seq![DrawRecord::Picked { among: fish.facts, picked: Some(fish.facts[i]) }],
        ),
{
}

} // verus!
