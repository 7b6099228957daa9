//! The random draws the game makes, each a thin call into `rand`, and
//! `Chance`, which makes them and keeps a record of every draw.

use rand::seq::{IteratorRandom, SliceRandom};
use rand::Rng;
use vstd::prelude::*;

verus! {

/// The thread-local generator of `rand`; its state is opaque here.
#[verifier::external_type_specification]
#[verifier::external_body]
pub struct ExThreadRng(rand::rngs::ThreadRng);

/// `rand::thread_rng`: hands out the lazily seeded thread-local generator.
/// Nothing is promised about its state.
#[verifier::external_body]
pub fn thread_rng() -> rand::rngs::ThreadRng {
    rand::thread_rng()
}

/// `Rng::gen_range(0..bound)` on `u32`: rand asserts that the range is not
/// empty (so `bound > 0` is required) and samples uniformly from it, so the
/// draw is below `bound`. Which value comes out is chance and is not stated.
#[verifier::external_body]
pub fn gen_below(rng: &mut rand::rngs::ThreadRng, bound: u32) -> (draw: u32)
    requires
        bound > 0,
    ensures
        draw < bound,
{
    rng.gen_range(0..bound)
}

/// `IteratorRandom::choose` on an iterator over `candidates`, the chosen
/// string cloned. rand's source returns `None` exactly when the iterator is
/// empty, and otherwise one of its items; which one is chance and is not
/// stated.
#[verifier::external_body]
pub fn choose_from_iter(candidates: &Vec<String>, rng: &mut rand::rngs::ThreadRng) -> (picked: Option<String>)
    ensures
        picked is None <==> candidates@.len() == 0,
        picked matches Some(s) ==> exists|i: int| 0 <= i < candidates@.len() && #[trigger] candidates@[i]@ == s@,
{
    candidates.iter().choose(rng).cloned()
}

/// `SliceRandom::choose` on `items`, the chosen string cloned. rand's source
/// returns `None` exactly when the slice is empty, and otherwise one of its
/// elements; which one is chance and is not stated.
#[verifier::external_body]
pub fn choose_from_slice(items: &Vec<String>, rng: &mut rand::rngs::ThreadRng) -> (picked: Option<String>)
    ensures
        picked is None <==> items@.len() == 0,
        picked matches Some(s) ==> exists|i: int| 0 <= i < items@.len() && #[trigger] items@[i]@ == s@,
{
    items.choose(rng).cloned()
}

/// One draw made through a `Chance`.
pub enum DrawRecord {
    /// A number drawn below `bound`; `value` came out.
    Below { bound: nat, value: nat },
    /// A choice among the strings `among`; `picked` came out.
    Picked { among: Seq<Seq<char>>, picked: Option<Seq<char>> },
}

/// The strings of a vector as character sequences.
pub open spec fn texts(items: Seq<String>) -> Seq<Seq<char>> {
    items.map_values(|s: String| s@)
}

/// The view of an optional string.
pub open spec fn picked_text(picked: Option<String>) -> Option<Seq<char>> {
    match picked {
        Some(s) => Some(s@),
        None => None,
    }
}

/// The random generator together with the record of every draw made with
/// it, oldest first.
pub struct Chance {
    rng: rand::rngs::ThreadRng,
    draws: Ghost<Seq<DrawRecord>>,
}

impl View for Chance {
    type V = Seq<DrawRecord>;

    closed spec fn view(&self) -> Seq<DrawRecord> {
        self.draws@
    }
}

impl Chance {
    /// A generator with no draws made yet.
    pub fn new() -> (chance: Chance)
        ensures
            chance@ == Seq::<DrawRecord>::empty(),
    {
        Chance { rng: thread_rng(), draws: Ghost(Seq::empty()) }
    }

    /// Draws a number below `bound` and records the draw.
    pub fn below(&mut self, bound: u32) -> (value: u32)
        requires
            bound > 0,
        ensures
            value < bound,
            final(self)@ == old(self)@.push(DrawRecord::Below { bound: bound as nat, value: value as nat }),
    {
        let value = gen_below(&mut self.rng, bound);
        self.draws = Ghost(self.draws@.push(DrawRecord::Below { bound: bound as nat, value: value as nat }));
        value
    }

    /// Chooses one of `items` by walking them as an iterator, and records
    /// the choice.
    pub fn pick_from_iter(&mut self, items: &Vec<String>) -> (picked: Option<String>)
        ensures
            picked is None <==> items@.len() == 0,
            picked matches Some(s) ==> exists|i: int| 0 <= i < items@.len() && #[trigger] items@[i]@ == s@,
            final(self)@ == old(self)@.push(DrawRecord::Picked { among: texts(items@), picked: picked_text(picked) }),
    {
        let picked = choose_from_iter(items, &mut self.rng);
        self.draws = Ghost(self.draws@.push(DrawRecord::Picked { among: texts(items@), picked: picked_text(picked) }));
        picked
    }

    /// Chooses one element of the slice `items`, and records the choice.
    pub fn pick_from_slice(&mut self, items: &Vec<String>) -> (picked: Option<String>)
        ensures
            picked is None <==> items@.len() == 0,
            picked matches Some(s) ==> exists|i: int| 0 <= i < items@.len() && #[trigger] items@[i]@ == s@,
            final(self)@ == old(self)@.push(DrawRecord::Picked { among: texts(items@), picked: picked_text(picked) }),
    {
        let picked = choose_from_slice(items, &mut self.rng);
        self.draws = Ghost(self.draws@.push(DrawRecord::Picked { among: texts(items@), picked: picked_text(picked) }));
        picked
    }
}

} // verus!
