//! The fish catalog: fish indexed by identifier, and the short history of
//! recent selections used to avoid showing the same fish again soon.

use vstd::prelude::*;

use crate::fish::chance::{texts, Chance, DrawRecord};
use crate::fish::{
    containment_answer_ok, extension_answer_ok, has_parent_segment, image_path_is_contained, starts_with_parent,
    surely_relative, validation_issue,
    validation_message, Fish, ValidationError, ValidationIssue,
};

verus! {

/// Number of recent selections remembered to avoid repeats.
pub const RECENT_HISTORY_SIZE: usize = 5;

/// Number of draws that try to avoid a recently selected fish before any
/// drawn fish is accepted.
pub const SELECTION_ATTEMPTS: usize = 3;

/// Why the library refused a request.
#[derive(Debug)]
pub enum LibraryError {
    Validation(ValidationError),
    DuplicateId(String),
    EmptyLibrary,
    NoEligibleFish,
}

/// The contents of a `LibraryError`, with text as character sequences.
pub enum LibraryIssue {
    Validation(ValidationIssue),
    DuplicateId(Seq<char>),
    EmptyLibrary,
    NoEligibleFish,
}

impl View for LibraryError {
    type V = LibraryIssue;

    open spec fn view(&self) -> LibraryIssue {
        match self {
            LibraryError::Validation(e) => LibraryIssue::Validation(e@),
            LibraryError::DuplicateId(id) => LibraryIssue::DuplicateId(id@),
            LibraryError::EmptyLibrary => LibraryIssue::EmptyLibrary,
            LibraryError::NoEligibleFish => LibraryIssue::NoEligibleFish,
        }
    }
}

impl From<ValidationError> for LibraryError {
    fn from(err: ValidationError) -> (converted: LibraryError) {
        LibraryError::Validation(err)
    }
}

impl vstd::std_specs::convert::FromSpecImpl<ValidationError> for LibraryError {
    open spec fn obeys_from_spec() -> bool {
        true
    }

    open spec fn from_spec(err: ValidationError) -> LibraryError {
        LibraryError::Validation(err)
    }
}

/// The text that describes a refusal of the library.
pub open spec fn library_message(issue: LibraryIssue) -> Seq<char> {
    match issue {
        LibraryIssue::Validation(inner) => "Validation error: "@ + validation_message(inner),
        LibraryIssue::DuplicateId(id) => "Duplicate fish ID: "@ + id,
        LibraryIssue::EmptyLibrary => "No fish available for selection"@,
        LibraryIssue::NoEligibleFish => "No fish with a readable image is available for playtest selection"@,
    }
}

impl LibraryError {
    /// Describes the refusal for a person.
    pub fn message(&self) -> (text: String)
        ensures
            text@ == library_message(self@),
    {
        match self {
            LibraryError::Validation(inner) => {
                let mut text = String::from_str("Validation error: ");
                let detail = inner.message();
                text.append(detail.as_str());
                text
            },
            LibraryError::DuplicateId(id) => {
                let mut text = String::from_str("Duplicate fish ID: ");
                text.append(id.as_str());
                text
            },
            LibraryError::EmptyLibrary => String::from_str("No fish available for selection"),
            LibraryError::NoEligibleFish => String::from_str(
                "No fish with a readable image is available for playtest selection",
            ),
        }
    }
}

/// A fish of a batch that the library refused, with the reason.
#[derive(Debug)]
pub struct BatchRejection {
    pub id: String,
    pub error: LibraryError,
}

impl View for BatchRejection {
    type V = (Seq<char>, LibraryIssue);

    open spec fn view(&self) -> (Seq<char>, LibraryIssue) {
        (self.id@, self.error@)
    }
}

/// A batch that was only partly accepted: how many fish were added, and
/// the ones refused, in batch order.
#[derive(Debug)]
pub struct PartialLoad {
    pub loaded: usize,
    pub rejected: Vec<BatchRejection>,
}

/// Statistics about the fish library.
#[derive(Debug, Default)]
pub struct LibraryStats {
    pub total_fish: usize,
}

/// Main fish library managing all available fish.
pub struct FishLibrary {
    /// All fish, in the order they were added; identifiers are distinct.
    fish: Vec<Fish>,
    /// Recently selected fish identifiers, oldest first.
    recent_selections: Vec<String>,
    /// Maximum size of the recent selections history.
    recent_history_size: usize,
}

/// The abstract state of a library: the fish keyed by identifier, the
/// recent selections (oldest first) and how many of them are remembered.
pub struct FishLibraryView {
    pub catalog: Map<Seq<char>, Fish>,
    pub recent: Seq<Seq<char>>,
    pub history_limit: nat,
}

/// One call that changes a library, as far as its view shows: an
/// `add_fish` call with the fish and the image path answer it used, a
/// selection that returned the fish with identifier `id`, or a
/// `clear_history` call. Selections that fail change nothing.
pub enum LibraryEvent {
    Added { fish: Fish, has_extension: bool },
    Selected { id: Seq<char> },
    Cleared,
}

/// The view of a new library.
pub open spec fn empty_library_view() -> FishLibraryView {
    FishLibraryView { catalog: Map::empty(), recent: Seq::empty(), history_limit: RECENT_HISTORY_SIZE as nat }
}

/// The view after one event: an add changes only the catalog, a selection
/// only the history, a clear empties the history.
pub open spec fn apply_event(view: FishLibraryView, event: LibraryEvent) -> FishLibraryView {
    match event {
        LibraryEvent::Added { fish, has_extension } => FishLibraryView {
            catalog: catalog_after_add(view.catalog, fish, has_extension),
            ..view
        },
        LibraryEvent::Selected { id } => FishLibraryView {
            recent: recorded(view.recent, id, view.history_limit),
            ..view
        },
        LibraryEvent::Cleared => FishLibraryView { recent: Seq::empty(), ..view },
    }
}

/// The view of a new library after a sequence of events.
pub open spec fn run_events(events: Seq<LibraryEvent>) -> FishLibraryView
    decreases events.len(),
{
    if events.len() == 0 {
        empty_library_view()
    } else {
        apply_event(run_events(events.drop_last()), events.last())
    }
}

/// The fish of an add event.
pub open spec fn event_fish(event: LibraryEvent) -> Fish {
    match event {
        LibraryEvent::Added { fish, .. } => fish,
        _ => arbitrary(),
    }
}

/// Event `i` is an add that the library accepted at its turn.
pub open spec fn accepted_at(events: Seq<LibraryEvent>, i: int) -> bool {
    &&& 0 <= i < events.len()
    &&& match events[i] {
        LibraryEvent::Added { fish, has_extension } => add_issue(
            run_events(events.take(i)).catalog,
            fish,
            has_extension,
        ) is None,
        _ => false,
    }
}

/// The identifiers that selections returned since the last clear, oldest
/// first.
pub open spec fn selections_since_clear(events: Seq<LibraryEvent>) -> Seq<Seq<char>>
    decreases events.len(),
{
    if events.len() == 0 {
        Seq::empty()
    } else {
        match events.last() {
            LibraryEvent::Cleared => Seq::empty(),
            LibraryEvent::Selected { id } => selections_since_clear(events.drop_last()).push(id),
            LibraryEvent::Added { .. } => selections_since_clear(events.drop_last()),
        }
    }
}

/// The last `n` entries of a sequence (all of them when it is shorter).
pub open spec fn last_entries(s: Seq<Seq<char>>, n: nat) -> Seq<Seq<char>> {
    if s.len() <= n {
        s
    } else {
        s.subrange(s.len() - n, s.len() as int)
    }
}

/// The catalog built from fish added in this order, a later fish with the
/// same identifier replacing an earlier one.
pub open spec fn catalog_of(s: Seq<Fish>) -> Map<Seq<char>, Fish>
    decreases s.len(),
{
    if s.len() == 0 {
        Map::empty()
    } else {
        catalog_of(s.drop_last()).insert(s.last().id@, s.last())
    }
}

/// No two fish share an identifier.
pub open spec fn ids_distinct(s: Seq<Fish>) -> bool {
    forall|i: int, j: int| 0 <= i < s.len() && 0 <= j < s.len() && i != j ==> #[trigger] s[i].id@ != #[trigger] s[j].id@
}

/// The history after recording `id`: appended, then the oldest entry is
/// dropped if the history is over its limit.
pub open spec fn recorded(recent: Seq<Seq<char>>, id: Seq<char>, limit: nat) -> Seq<Seq<char>> {
    if recent.push(id).len() > limit {
        recent.push(id).drop_first()
    } else {
        recent.push(id)
    }
}

/// The fish that `add_fish` refuses and why: first its own validity
/// (`has_extension` tells whether its image path has an extension), then
/// whether its identifier is taken. `None` when it is accepted.
pub open spec fn add_issue(catalog: Map<Seq<char>, Fish>, fish: Fish, has_extension: bool) -> Option<LibraryIssue> {
    match validation_issue(fish@, has_extension) {
        Some(issue) => Some(LibraryIssue::Validation(issue)),
        None => if catalog.contains_key(fish.id@) {
            Some(LibraryIssue::DuplicateId(fish.id@))
        } else {
            None
        },
    }
}

/// The catalog after `add_fish`: the fish is inserted under its
/// identifier when accepted, and nothing changes otherwise.
pub open spec fn catalog_after_add(catalog: Map<Seq<char>, Fish>, fish: Fish, has_extension: bool) -> Map<Seq<char>, Fish> {
    if add_issue(catalog, fish, has_extension) is None {
        catalog.insert(fish.id@, fish)
    } else {
        catalog
    }
}

/// A result of the library agrees with the expected refusal, if any.
pub open spec fn unit_agrees(result: Result<(), LibraryError>, issue: Option<LibraryIssue>) -> bool {
    match result {
        Ok(()) => issue is None,
        Err(e) => issue == Some(e@),
    }
}

/// The identifiers held by a vector of strings.
pub open spec fn names(v: Seq<String>) -> Set<Seq<char>> {
    Set::new(|k: Seq<char>| exists|i: int| 0 <= i < v.len() && #[trigger] v[i]@ == k)
}

/// Whether the selection takes a fish drawn at attempt `attempt` (counted
/// from 0): each of the first `SELECTION_ATTEMPTS` draws is taken only when
/// the drawn fish is not in the recent history; the draw after them is
/// taken whatever it is.
pub open spec fn draw_accepted(recent: Seq<Seq<char>>, attempt: int, drawn: Seq<char>) -> bool {
    attempt >= SELECTION_ATTEMPTS || !recent.contains(drawn)
}

/// A sequence of draws from `candidates` that the selection could have
/// made: every draw but the last was turned down by `draw_accepted`, and
/// the last was taken.
pub open spec fn draws_explain(recent: Seq<Seq<char>>, candidates: Set<Seq<char>>, draws: Seq<Seq<char>>) -> bool {
    &&& 1 <= draws.len() <= SELECTION_ATTEMPTS + 1
    &&& forall|i: int| 0 <= i < draws.len() ==> candidates.contains(#[trigger] draws[i])
    &&& forall|i: int| 0 <= i < draws.len() - 1 ==> !draw_accepted(recent, i, #[trigger] draws[i])
    &&& draw_accepted(recent, draws.len() - 1, draws.last())
}

/// `chosen` is what the selection returns after some sequence of draws.
/// Which fish the random draws hit is chance and is not named, so every
/// candidate has such a sequence; what is decided about each draw is
/// stated exactly by `accepts_draw`, which the selection asks.
pub open spec fn selected_after_draws(recent: Seq<Seq<char>>, candidates: Set<Seq<char>>, chosen: Seq<char>) -> bool {
    exists|draws: Seq<Seq<char>>| #[trigger] draws_explain(recent, candidates, draws) && draws.last() == chosen
}

/// The identifier a choice gave (empty for any other draw).
pub open spec fn picked_id(draw: DrawRecord) -> Seq<char> {
    match draw {
        DrawRecord::Picked { picked: Some(id), .. } => id,
        _ => Seq::empty(),
    }
}

/// `after` is `before` with more draws recorded after it.
pub open spec fn extends(before: Seq<DrawRecord>, after: Seq<DrawRecord>) -> bool {
    before.len() <= after.len() && after.subrange(0, before.len() as int) == before
}

/// Draws after which a selection among `candidates` returns `chosen`: each
/// was a choice among exactly the candidates and gave one of them, the
/// identifiers drawn explain the selection, and `chosen` is the last one.
pub open spec fn picks_select(
    recent: Seq<Seq<char>>,
    candidates: Set<Seq<char>>,
    draws: Seq<DrawRecord>,
    chosen: Seq<char>,
) -> bool {
    &&& forall|i: int|
        0 <= i < draws.len() ==> (#[trigger] draws[i] matches DrawRecord::Picked { among, picked: Some(_) }
            && among.to_set() == candidates)
    &&& draws_explain(recent, candidates, draws.map_values(|d: DrawRecord| picked_id(d)))
    &&& picked_id(draws.last()) == chosen
}

/// The draws a selection among `candidates` made, against what it returned:
/// a returned fish is the one `picks_select` gives for those draws; a
/// refusal draws nothing.
pub open spec fn selection_drawn(
    result: Result<&Fish, LibraryError>,
    recent: Seq<Seq<char>>,
    candidates: Set<Seq<char>>,
    draws: Seq<DrawRecord>,
) -> bool {
    match result {
        Ok(fish) => picks_select(recent, candidates, draws, fish.id@),
        Err(_) => draws.len() == 0,
    }
}

/// Whether a fish is eligible for a playtest round, as the selection
/// judges it: its image path must stay inside the assets directory (an
/// answer of `image_path_is_contained`), and only then is
/// `image_is_readable` asked, whose answer decides.
pub open spec fn eligibility_agrees<F: Fn(&Fish) -> bool>(image_is_readable: F, fish: Fish, eligible: bool) -> bool {
    exists|contained: bool|
        #[trigger] containment_answer_ok(fish.image_path@, contained) && if contained {
            image_is_readable.ensures((&fish,), eligible)
        } else {
            !eligible
        }
}

/// `eligible` is the set of identifiers of the catalog's fish that are
/// eligible for a playtest round, judged once per fish.
pub open spec fn reports_eligible<F: Fn(&Fish) -> bool>(
    image_is_readable: F,
    catalog: Map<Seq<char>, Fish>,
    eligible: Set<Seq<char>>,
) -> bool {
    &&& eligible.subset_of(catalog.dom())
    &&& forall|k: Seq<char>| #[trigger] catalog.contains_key(k) ==> eligibility_agrees(image_is_readable, catalog[k], eligible.contains(k))
}

/// The outcome of a selection among `candidates`: refused with
/// `empty_error` when there are none, and otherwise a catalog fish chosen
/// after some draws and recorded in the history.
pub open spec fn selection_agrees(
    result: Result<&Fish, LibraryError>,
    before: FishLibraryView,
    after: FishLibraryView,
    candidates: Set<Seq<char>>,
    empty_error: LibraryIssue,
) -> bool {
    &&& after.catalog == before.catalog
    &&& after.history_limit == before.history_limit
    &&& candidates.len() == 0 ==> (result matches Err(e) && e@ == empty_error && after == before)
    &&& candidates.len() > 0 ==> (result matches Ok(fish) && {
        &&& after == apply_event(before, LibraryEvent::Selected { id: fish.id@ })
        &&& selected_after_draws(before.recent, candidates, fish.id@)
        &&& candidates.contains(fish.id@)
        &&& after.catalog.contains_key(fish.id@)
        &&& *fish == after.catalog[fish.id@]
        &&& after.recent == recorded(before.recent, fish.id@, before.history_limit)
    })
}

/// The catalog after adding a batch of fish one after the other;
/// `has_extension[i]` tells whether the image path of fish `i` has an
/// extension.
pub open spec fn batch_catalog(catalog: Map<Seq<char>, Fish>, batch: Seq<Fish>, has_extension: Seq<bool>) -> Map<Seq<char>, Fish>
    decreases batch.len(),
{
    if batch.len() == 0 {
        catalog
    } else {
        catalog_after_add(
            batch_catalog(catalog, batch.drop_last(), has_extension.drop_last()),
            batch.last(),
            has_extension.last(),
        )
    }
}

/// The fish of a batch that are refused, in batch order, each with its
/// identifier and the reason `add_fish` gives at its turn.
pub open spec fn batch_rejections(catalog: Map<Seq<char>, Fish>, batch: Seq<Fish>, has_extension: Seq<bool>) -> Seq<(Seq<char>, LibraryIssue)>
    decreases batch.len(),
{
    if batch.len() == 0 {
        Seq::empty()
    } else {
        let earlier = batch_rejections(catalog, batch.drop_last(), has_extension.drop_last());
        let before = batch_catalog(catalog, batch.drop_last(), has_extension.drop_last());
        match add_issue(before, batch.last(), has_extension.last()) {
            Some(issue) => earlier.push((batch.last().id@, issue)),
            None => earlier,
        }
    }
}

/// The result of a batch agrees with its refusals: the count of all fish
/// when none is refused, and otherwise the count of accepted fish with
/// the refusals.
pub open spec fn batch_agrees(result: Result<usize, PartialLoad>, count: nat, rejections: Seq<(Seq<char>, LibraryIssue)>) -> bool {
    match result {
        Ok(loaded) => rejections.len() == 0 && loaded == count,
        Err(partial) => {
            &&& rejections.len() > 0
            &&& partial.loaded == count - rejections.len()
            &&& partial.rejected@.map_values(|r: BatchRejection| r@) == rejections
        },
    }
}

/// The strings of a vector, as a set, are the identifiers it names.
proof fn lemma_texts_name(v: Seq<String>)
    ensures
        texts(v).to_set() == names(v),
{
    assert forall|k: Seq<char>| #[trigger] texts(v).to_set().contains(k) <==> names(v).contains(k) by {
        if texts(v).to_set().contains(k) {
            let i = choose|i: int| 0 <= i < texts(v).len() && texts(v)[i] == k;
            assert(v[i]@ == k);
        }
        if names(v).contains(k) {
            let i = choose|i: int| 0 <= i < v.len() && #[trigger] v[i]@ == k;
            assert(texts(v)[i] == k);
        }
    }
    assert(texts(v).to_set() =~= names(v));
}

/// A set of identifiers drawn from a finite key set is finite, and it is
/// non-empty as soon as it holds one identifier.
proof fn lemma_finite_nonempty(ids: Set<Seq<char>>, keys: Set<Seq<char>>, k: Seq<char>)
    requires
        keys.finite(),
        ids.subset_of(keys),
    ensures
        ids.finite(),
        ids.contains(k) ==> ids.len() > 0,
{
    vstd::set_lib::lemma_len_subset(ids, keys);
    if ids.contains(k) {
        assert(ids.len() == ids.remove(k).len() + 1);
    }
}

/// Facts about the catalog built from a sequence of fish.
proof fn lemma_catalog_of(s: Seq<Fish>)
    ensures
        catalog_of(s).dom().finite(),
        forall|k: Seq<char>| #[trigger] catalog_of(s).contains_key(k) <==> exists|i: int| 0 <= i < s.len() && s[i].id@ == k,
        ids_distinct(s) ==> catalog_of(s).len() == s.len(),
        ids_distinct(s) ==> forall|i: int| 0 <= i < s.len() ==> catalog_of(s)[#[trigger] s[i].id@] == s[i],
    decreases s.len(),
{
    if s.len() > 0 {
        let p = s.drop_last();
        lemma_catalog_of(p);
        assert forall|k: Seq<char>| #[trigger] catalog_of(s).contains_key(k) <==> exists|i: int| 0 <= i < s.len() && s[i].id@ == k by {
            if catalog_of(s).contains_key(k) {
                if k != s.last().id@ {
                    let i = choose|i: int| 0 <= i < p.len() && p[i].id@ == k;
                    assert(s[i].id@ == k);
                } else {
                    assert(s[s.len() - 1].id@ == k);
                }
            }
            if exists|i: int| 0 <= i < s.len() && s[i].id@ == k {
                let i = choose|i: int| 0 <= i < s.len() && s[i].id@ == k;
                if i < s.len() - 1 {
                    assert(p[i].id@ == k);
                }
            }
        }
        if ids_distinct(s) {
            assert(ids_distinct(p)) by {
                assert forall|i: int, j: int| 0 <= i < p.len() && 0 <= j < p.len() && i != j implies #[trigger] p[i].id@ != #[trigger] p[j].id@ by {
                    assert(s[i].id@ != s[j].id@);
                }
            }
            assert(!catalog_of(p).contains_key(s.last().id@)) by {
                if catalog_of(p).contains_key(s.last().id@) {
                    let i = choose|i: int| 0 <= i < p.len() && p[i].id@ == s.last().id@;
                    assert(s[i].id@ != s[s.len() - 1].id@);
                }
            }
            assert forall|i: int| 0 <= i < s.len() implies catalog_of(s)[#[trigger] s[i].id@] == s[i] by {
                if i < s.len() - 1 {
                    assert(p[i] == s[i]);
                    assert(s[i].id@ != s[s.len() - 1].id@);
                }
            }
        }
    }
}

impl View for FishLibrary {
    type V = FishLibraryView;

    closed spec fn view(&self) -> FishLibraryView {
        FishLibraryView {
            catalog: catalog_of(self.fish@),
            recent: self.recent_selections@.map_values(|s: String| s@),
            history_limit: self.recent_history_size as nat,
        }
    }
}

impl FishLibrary {
    /// The library's internal invariant: identifiers are distinct and the
    /// history stays within its limit of five.
    pub closed spec fn wf(&self) -> bool {
        &&& ids_distinct(self.fish@)
        &&& self.recent_history_size == RECENT_HISTORY_SIZE
        &&& self.recent_selections@.len() <= self.recent_history_size
    }

    /// Creates a new empty fish library.
    pub fn new() -> (library: Self)
        ensures
            library.wf(),
            library@.catalog == Map::<Seq<char>, Fish>::empty(),
            library@.recent == Seq::<Seq<char>>::empty(),
            library@.history_limit == RECENT_HISTORY_SIZE,
            library@ == empty_library_view(),
    {
        let library = FishLibrary {
            fish: Vec::new(),
            recent_selections: Vec::new(),
            recent_history_size: RECENT_HISTORY_SIZE,
        };
        assert(library@.recent =~= Seq::<Seq<char>>::empty());
        library
    }

    /// Position of the fish with identifier `id`, if there is one.
    fn position_of(&self, id: &String) -> (position: Option<usize>)
        requires
            self.wf(),
        ensures
            match position {
                Some(i) => i < self.fish@.len() && self.fish@[i as int].id@ == id@,
                None => forall|i: int| 0 <= i < self.fish@.len() ==> self.fish@[i].id@ != id@,
            },
            position is Some <==> self@.catalog.contains_key(id@),
            position matches Some(i) ==> self@.catalog[id@] == self.fish@[i as int],
    {
        proof {
            lemma_catalog_of(self.fish@);
        }
        let n = self.fish.len();
        let mut i: usize = 0;
        while i < n
            invariant
                n == self.fish@.len(),
                self.wf(),
                0 <= i <= n,
                forall|k: int| 0 <= k < i ==> self.fish@[k].id@ != id@,
            decreases n - i,
        {
            if self.fish[i].id == *id {
                proof {
                    lemma_catalog_of(self.fish@);
                    assert(self.fish@[i as int].id@ == id@);
                }
                return Some(i);
            }
            i = i + 1;
        }
        None
    }

    /// Adds a fish to the library: it must be valid and its identifier must
    /// not be taken. The image path's extension is read with the platform's
    /// path rules; whatever they answer, the outcome is that of `add_issue`.
    pub fn add_fish(&mut self, fish: Fish) -> (result: Result<(), LibraryError>)
        requires
            old(self).wf(),
        ensures
            final(self).wf(),
            final(self)@.recent == old(self)@.recent,
            final(self)@.history_limit == old(self)@.history_limit,
            exists|has_extension: bool|
                extension_answer_ok(fish.image_path@, has_extension)
                && unit_agrees(result, #[trigger] add_issue(old(self)@.catalog, fish, has_extension))
                && final(self)@.catalog == catalog_after_add(old(self)@.catalog, fish, has_extension)
                && final(self)@ == apply_event(old(self)@, LibraryEvent::Added { fish, has_extension }),
    {
        let validated = fish.validate();
        let ghost has_extension = choose|has_extension: bool|
            extension_answer_ok(fish.image_path@, has_extension) && crate::fish::validation_agrees(
                validated,
                #[trigger] validation_issue(fish@, has_extension),
            );
        let ghost catalog = self@.catalog;
        let ghost added = fish;
        match validated {
            Err(e) => {
                let result = Err(LibraryError::Validation(e));
                assert(unit_agrees(result, add_issue(catalog, added, has_extension)));
                assert(self@.catalog == catalog_after_add(catalog, added, has_extension));
                return result;
            },
            Ok(()) => {},
        }
        if self.position_of(&fish.id).is_some() {
            let result = Err(LibraryError::DuplicateId(fish.id.clone()));
            assert(unit_agrees(result, add_issue(catalog, added, has_extension)));
            assert(self@.catalog == catalog_after_add(catalog, added, has_extension));
            return result;
        }
        proof {
            lemma_catalog_of(self.fish@);
        }
        let ghost before = self.fish@;
        self.fish.push(fish);
        proof {
            assert(self.fish@.drop_last() == before);
            assert forall|i: int, j: int| 0 <= i < self.fish@.len() && 0 <= j < self.fish@.len() && i != j implies #[trigger] self.fish@[i].id@ != #[trigger] self.fish@[j].id@ by {
                if i < before.len() && j < before.len() {
                    assert(before[i].id@ != before[j].id@);
                } else if i < before.len() {
                    assert(catalog_of(before).contains_key(before[i].id@));
                } else {
                    assert(catalog_of(before).contains_key(before[j].id@));
                }
            }
            assert(unit_agrees(Ok(()), add_issue(catalog, added, has_extension)));
            assert(self@.catalog == catalog_after_add(catalog, added, has_extension));
            assert(self@.recent == old(self)@.recent);
        }
        Ok(())
    }

    /// Identifiers of all fish, in catalog order.
    fn all_ids(&self) -> (ids: Vec<String>)
        requires
            self.wf(),
        ensures
            ids@.len() == self.fish@.len(),
            forall|i: int| 0 <= i < ids@.len() ==> #[trigger] ids@[i]@ == self.fish@[i].id@,
            names(ids@) == self@.catalog.dom(),
    {
        let mut ids: Vec<String> = Vec::new();
        let n = self.fish.len();
        let mut i: usize = 0;
        while i < n
            invariant
                n == self.fish@.len(),
                0 <= i <= n,
                ids@.len() == i,
                forall|k: int| 0 <= k < i ==> #[trigger] ids@[k]@ == self.fish@[k].id@,
            decreases n - i,
        {
            ids.push(self.fish[i].id.clone());
            i = i + 1;
        }
        proof {
            lemma_catalog_of(self.fish@);
            assert forall|k: Seq<char>| #[trigger] names(ids@).contains(k) <==> self@.catalog.contains_key(k) by {
                if names(ids@).contains(k) {
                    let i = choose|i: int| 0 <= i < ids@.len() && #[trigger] ids@[i]@ == k;
                    assert(self.fish@[i].id@ == k);
                }
                if self@.catalog.contains_key(k) {
                    let i = choose|i: int| 0 <= i < self.fish@.len() && self.fish@[i].id@ == k;
                    assert(ids@[i]@ == k);
                }
            }
            assert(names(ids@) =~= self@.catalog.dom());
        }
        ids
    }

    /// Checks if a fish was recently selected.
    fn was_recently_selected(&self, id: &str) -> (recent: bool)
        ensures
            recent == self@.recent.contains(id@),
    {
        let key = String::from_str(id);
        let n = self.recent_selections.len();
        let mut i: usize = 0;
        while i < n
            invariant
                n == self.recent_selections@.len(),
                key@ == id@,
                0 <= i <= n,
                forall|k: int| 0 <= k < i ==> self.recent_selections@[k]@ != id@,
            decreases n - i,
        {
            if self.recent_selections[i] == key {
                assert(self@.recent[i as int] == id@);
                return true;
            }
            i = i + 1;
        }
        proof {
            if self@.recent.contains(id@) {
                let k = choose|k: int| 0 <= k < self@.recent.len() && self@.recent[k] == id@;
                assert(self.recent_selections@[k]@ == id@);
            }
        }
        false
    }

    /// Whether the selection takes a fish drawn at attempt `attempt`
    /// (counted from 0): at the first `SELECTION_ATTEMPTS` attempts only a
    /// fish that was not recently selected is taken; at the attempt after
    /// them any drawn fish is.
    pub fn accepts_draw(&self, attempt: usize, drawn: &str) -> (accept: bool)
        ensures
            accept == draw_accepted(self@.recent, attempt as int, drawn@),
    {
        attempt >= SELECTION_ATTEMPTS || !self.was_recently_selected(drawn)
    }

    /// Records a fish selection in the history, dropping the oldest entry
    /// when the history is over its limit.
    fn record_selection(&mut self, id: &str)
        requires
            old(self).wf(),
        ensures
            final(self).wf(),
            final(self).fish == old(self).fish,
            final(self)@.catalog == old(self)@.catalog,
            final(self)@.history_limit == old(self)@.history_limit,
            final(self)@.recent == recorded(old(self)@.recent, id@, old(self)@.history_limit),
    {
        let ghost before = self.recent_selections@;
        self.recent_selections.push(String::from_str(id));
        assert(self.recent_selections@.map_values(|s: String| s@) =~= before.map_values(|s: String| s@).push(id@));
        if self.recent_selections.len() > self.recent_history_size {
            let ghost pushed = self.recent_selections@;
            self.recent_selections.remove(0);
            assert(self.recent_selections@.map_values(|s: String| s@) =~= pushed.map_values(|s: String| s@).drop_first());
        }
    }

    /// Clears the recent selection history.
    pub fn clear_history(&mut self)
        requires
            old(self).wf(),
        ensures
            final(self).wf(),
            final(self)@.catalog == old(self)@.catalog,
            final(self)@.history_limit == old(self)@.history_limit,
            final(self)@.recent == Seq::<Seq<char>>::empty(),
            final(self)@ == apply_event(old(self)@, LibraryEvent::Cleared),
    {
        self.recent_selections.clear();
        assert(self@.recent =~= Seq::<Seq<char>>::empty());
    }

    /// Picks one of the candidate identifiers at random: up to three draws
    /// try to avoid a recently selected fish, then a fourth draw is taken
    /// whatever it is; each draw is judged by `accepts_draw`. The choice is
    /// recorded in the history.
    fn select_from_candidates(&mut self, candidate_ids: Vec<String>, chance: &mut Chance) -> (result: Result<&Fish, LibraryError>)
        requires
            old(self).wf(),
            forall|i: int| 0 <= i < candidate_ids@.len() ==> old(self)@.catalog.contains_key(#[trigger] candidate_ids@[i]@),
        ensures
            final(self).wf(),
            selection_agrees(result, old(self)@, final(self)@, names(candidate_ids@), LibraryIssue::NoEligibleFish),
            extends(old(chance)@, final(chance)@),
            selection_drawn(result, old(self)@.recent, names(candidate_ids@), final(chance)@.skip(old(chance)@.len() as int)),
    {
        proof {
            lemma_catalog_of(self.fish@);
            if candidate_ids@.len() > 0 {
                assert(names(candidate_ids@).contains(candidate_ids@[0]@));
                lemma_finite_nonempty(names(candidate_ids@), self@.catalog.dom(), candidate_ids@[0]@);
            } else {
                assert(names(candidate_ids@) =~= Set::<Seq<char>>::empty());
            }
        }
        if candidate_ids.len() == 0 {
            assert(chance@.skip(chance@.len() as int) =~= Seq::<DrawRecord>::empty());
            assert(chance@.subrange(0, chance@.len() as int) =~= chance@);
            return Err(LibraryError::NoEligibleFish);
        }
        let ghost candidates = names(candidate_ids@);
        proof {
            lemma_texts_name(candidate_ids@);
        }
        let ghost start = self@;
        let ghost start_draws = chance@;
        let ghost mut draws: Seq<Seq<char>> = Seq::empty();
        let mut attempt: usize = 0;
        loop
            invariant
                self.wf(),
                self@ == start,
                start == old(self)@,
                start_draws == old(chance)@,
                candidates == names(candidate_ids@),
                texts(candidate_ids@).to_set() == candidates,
                candidates.len() > 0,
                candidate_ids@.len() > 0,
                forall|i: int| 0 <= i < candidate_ids@.len() ==> start.catalog.contains_key(#[trigger] candidate_ids@[i]@),
                0 <= attempt <= SELECTION_ATTEMPTS,
                draws.len() == attempt,
                forall|i: int| 0 <= i < draws.len() ==> candidates.contains(#[trigger] draws[i]),
                forall|i: int| 0 <= i < draws.len() ==> !draw_accepted(start.recent, i, #[trigger] draws[i]),
                chance@.len() == start_draws.len() + attempt,
                chance@.subrange(0, start_draws.len() as int) == start_draws,
                forall|i: int|
                    0 <= i < attempt ==> #[trigger] chance@[start_draws.len() + i] == (DrawRecord::Picked {
                        among: texts(candidate_ids@),
                        picked: Some(draws[i]),
                    }),
            decreases SELECTION_ATTEMPTS - attempt,
        {
            let fish_id = match chance.pick_from_iter(&candidate_ids) {
                Some(fish_id) => fish_id,
                None => {
                    return Err(LibraryError::NoEligibleFish);
                },
            };
            proof {
                let i = choose|i: int| 0 <= i < candidate_ids@.len() && #[trigger] candidate_ids@[i]@ == fish_id@;
                assert(candidates.contains(fish_id@));
                draws = draws.push(fish_id@);
                assert(chance@.subrange(0, start_draws.len() as int) =~= start_draws);
                assert(chance@[start_draws.len() + attempt] == DrawRecord::Picked {
                    among: texts(candidate_ids@),
                    picked: Some(draws[attempt as int]),
                });
            }
            if self.accepts_draw(attempt, fish_id.as_str()) {
                self.record_selection(fish_id.as_str());
                proof {
                    assert(draws_explain(start.recent, candidates, draws));
                    let made = chance@.skip(start_draws.len() as int);
                    assert(made.len() == draws.len());
                    assert forall|i: int| 0 <= i < made.len() implies #[trigger] made[i] == (DrawRecord::Picked {
                        among: texts(candidate_ids@),
                        picked: Some(draws[i]),
                    }) by {
                        assert(made[i] == chance@[start_draws.len() + i]);
                    }
                    assert(made.map_values(|d: DrawRecord| picked_id(d)) =~= draws);
                }
                return match self.position_of(&fish_id) {
                    Some(index) => Ok(&self.fish[index]),
                    None => Err(LibraryError::NoEligibleFish),
                };
            }
            attempt = attempt + 1;
        }
    }

    /// Selects a random fish with equal chance for every fish of the
    /// library, avoiding recently selected fish where three draws allow.
    pub fn select_random_fish(&mut self) -> (result: Result<&Fish, LibraryError>)
        requires
            old(self).wf(),
        ensures
            final(self).wf(),
            selection_agrees(result, old(self)@, final(self)@, old(self)@.catalog.dom(), LibraryIssue::EmptyLibrary),
    {
        let mut chance = Chance::new();
        self.select_random_fish_with(&mut chance)
    }

    /// `select_random_fish` with its draws made by `chance`: each draw is a
    /// choice among all the fish of the library, and the fish returned is
    /// the last one drawn, as `selection_drawn` states.
    pub fn select_random_fish_with(&mut self, chance: &mut Chance) -> (result: Result<&Fish, LibraryError>)
        requires
            old(self).wf(),
        ensures
            final(self).wf(),
            selection_agrees(result, old(self)@, final(self)@, old(self)@.catalog.dom(), LibraryIssue::EmptyLibrary),
            extends(old(chance)@, final(chance)@),
            selection_drawn(result, old(self)@.recent, old(self)@.catalog.dom(), final(chance)@.skip(old(chance)@.len() as int)),
    {
        proof {
            lemma_catalog_of(self.fish@);
        }
        if self.fish.len() == 0 {
            proof {
                assert(self@.catalog.dom() =~= Set::<Seq<char>>::empty());
                assert(chance@.skip(chance@.len() as int) =~= Seq::<DrawRecord>::empty());
                assert(chance@.subrange(0, chance@.len() as int) =~= chance@);
            }
            return Err(LibraryError::EmptyLibrary);
        }
        let candidate_ids = self.all_ids();
        proof {
            assert forall|i: int| 0 <= i < candidate_ids@.len() implies self@.catalog.contains_key(#[trigger] candidate_ids@[i]@) by {
                assert(names(candidate_ids@).contains(candidate_ids@[i]@));
            }
        }
        self.select_from_candidates(candidate_ids, chance)
    }

    /// Identifiers of the fish eligible for a playtest round: the image path
    /// stays inside the assets directory and `image_is_readable` answers
    /// `true` for the fish, asked once per fish with a contained path.
    fn readable_ids<F: Fn(&Fish) -> bool>(&self, image_is_readable: F) -> (ids: Vec<String>)
        requires
            self.wf(),
            forall|fish: &Fish| #[trigger] image_is_readable.requires((fish,)),
        ensures
            forall|i: int| 0 <= i < ids@.len() ==> self@.catalog.contains_key(#[trigger] ids@[i]@),
            exists|readable: Set<Seq<char>>|
                #[trigger] reports_eligible(image_is_readable, self@.catalog, readable)
                && names(ids@) == readable
                && readable.finite()
                && readable.len() == ids@.len(),
    {
        proof {
            lemma_catalog_of(self.fish@);
        }
        let mut ids: Vec<String> = Vec::new();
        let ghost mut readable: Set<Seq<char>> = Set::empty();
        let n = self.fish.len();
        let mut i: usize = 0;
        while i < n
            invariant
                self.wf(),
                n == self.fish@.len(),
                0 <= i <= n,
                forall|fish: &Fish| #[trigger] image_is_readable.requires((fish,)),
                forall|j: int| 0 <= j < i ==> eligibility_agrees(image_is_readable, self.fish@[j], readable.contains(#[trigger] self.fish@[j].id@)),
                forall|k: Seq<char>| #[trigger] readable.contains(k) ==> exists|j: int| 0 <= j < i && self.fish@[j].id@ == k,
                names(ids@) == readable,
                readable.finite(),
                readable.len() == ids@.len(),
                forall|j: int| 0 <= j < ids@.len() ==> exists|k: int| 0 <= k < i && #[trigger] ids@[j]@ == self.fish@[k].id@,
            decreases n - i,
        {
            let fish = &self.fish[i];
            let contained = image_path_is_contained(fish.image_path.as_str());
            let readable_now = if contained {
                image_is_readable(fish)
            } else {
                false
            };
            proof {
                assert forall|j: int| 0 <= j < i implies self.fish@[j].id@ != self.fish@[i as int].id@ by {}
                assert(!readable.contains(self.fish@[i as int].id@));
            }
            if readable_now {
                let ghost old_ids = ids@;
                ids.push(fish.id.clone());
                proof {
                    readable = readable.insert(fish.id@);
                    assert(names(ids@) =~= readable) by {
                        assert forall|k: Seq<char>| names(ids@).contains(k) <==> readable.contains(k) by {
                            if names(ids@).contains(k) {
                                let j = choose|j: int| 0 <= j < ids@.len() && #[trigger] ids@[j]@ == k;
                                if j < old_ids.len() {
                                    assert(old_ids[j]@ == k);
                                    assert(names(old_ids).contains(k));
                                }
                            }
                            if readable.contains(k) && k != fish.id@ {
                                assert(names(old_ids).contains(k));
                                let j = choose|j: int| 0 <= j < old_ids.len() && #[trigger] old_ids[j]@ == k;
                                assert(ids@[j]@ == k);
                            }
                            if k == fish.id@ {
                                assert(ids@[ids@.len() - 1]@ == k);
                            }
                        }
                    }
                }
            }
            proof {
                assert(readable.contains(self.fish@[i as int].id@) == readable_now);
                assert(containment_answer_ok(self.fish@[i as int].image_path@, contained));
                assert(eligibility_agrees(image_is_readable, self.fish@[i as int], readable.contains(self.fish@[i as int].id@)));
            }
            i = i + 1;
        }
        proof {
            assert(readable.subset_of(self@.catalog.dom())) by {
                assert forall|k: Seq<char>| readable.contains(k) implies self@.catalog.contains_key(k) by {
                    let j = choose|j: int| 0 <= j < n && self.fish@[j].id@ == k;
                }
            }
            assert forall|k: Seq<char>| #[trigger] self@.catalog.contains_key(k) implies eligibility_agrees(image_is_readable, self@.catalog[k], readable.contains(k)) by {
                let j = choose|j: int| 0 <= j < self.fish@.len() && self.fish@[j].id@ == k;
                assert(self@.catalog[self.fish@[j].id@] == self.fish@[j]);
            }
            assert(reports_eligible(image_is_readable, self@.catalog, readable));
            assert forall|j: int| 0 <= j < ids@.len() implies self@.catalog.contains_key(#[trigger] ids@[j]@) by {
                let k = choose|k: int| 0 <= k < n && #[trigger] ids@[j]@ == self.fish@[k].id@;
            }
        }
        ids
    }

    /// Selects a random fish among those eligible for a playtest round: the
    /// image path stays inside the assets directory and `image_is_readable`
    /// reports the image readable. The library itself is left
    /// intact; only the candidates of this selection are filtered.
    pub fn select_random_playtest_fish<F: Fn(&Fish) -> bool>(&mut self, image_is_readable: F) -> (result: Result<&Fish, LibraryError>)
        requires
            old(self).wf(),
            forall|fish: &Fish| #[trigger] image_is_readable.requires((fish,)),
        ensures
            final(self).wf(),
            exists|readable: Set<Seq<char>>|
                #[trigger] reports_eligible(image_is_readable, old(self)@.catalog, readable)
                && selection_agrees(result, old(self)@, final(self)@, readable, LibraryIssue::NoEligibleFish),
    {
        let mut chance = Chance::new();
        self.select_random_playtest_fish_with(image_is_readable, &mut chance)
    }

    /// `select_random_playtest_fish` with its draws made by `chance`: each
    /// draw is a choice among the eligible fish, and the fish returned is
    /// the last one drawn, as `selection_drawn` states.
    pub fn select_random_playtest_fish_with<F: Fn(&Fish) -> bool>(
        &mut self,
        image_is_readable: F,
        chance: &mut Chance,
    ) -> (result: Result<&Fish, LibraryError>)
        requires
            old(self).wf(),
            forall|fish: &Fish| #[trigger] image_is_readable.requires((fish,)),
        ensures
            final(self).wf(),
            extends(old(chance)@, final(chance)@),
            exists|readable: Set<Seq<char>>|
                #[trigger] reports_eligible(image_is_readable, old(self)@.catalog, readable)
                && selection_agrees(result, old(self)@, final(self)@, readable, LibraryIssue::NoEligibleFish)
                && selection_drawn(result, old(self)@.recent, readable, final(chance)@.skip(old(chance)@.len() as int)),
    {
        let candidate_ids = self.readable_ids(image_is_readable);
        let ghost readable = choose|readable: Set<Seq<char>>|
            #[trigger] reports_eligible(image_is_readable, self@.catalog, readable)
            && names(candidate_ids@) == readable
            && readable.finite()
            && readable.len() == candidate_ids@.len();
        let result = self.select_from_candidates(candidate_ids, chance);
        assert(reports_eligible(image_is_readable, old(self)@.catalog, readable));
        result
    }

    /// Returns the number of fish eligible for a playtest round: the image
    /// path stays inside the assets directory and `image_is_readable`
    /// reports the image readable.
    pub fn playtest_eligible_count<F: Fn(&Fish) -> bool>(&self, image_is_readable: F) -> (count: usize)
        requires
            self.wf(),
            forall|fish: &Fish| #[trigger] image_is_readable.requires((fish,)),
        ensures
            exists|readable: Set<Seq<char>>|
                #[trigger] reports_eligible(image_is_readable, self@.catalog, readable)
                && readable.finite()
                && count == readable.len(),
    {
        let ids = self.readable_ids(image_is_readable);
        ids.len()
    }

    /// Adds each fish of a batch in turn, as `add_fish` does, counting the
    /// accepted ones and keeping the refused ones with their reasons. The
    /// batch is accepted as a whole (`Ok` with the count) only when no fish
    /// is refused.
    pub fn add_fish_batch(&mut self, batch: Vec<Fish>) -> (result: Result<usize, PartialLoad>)
        requires
            old(self).wf(),
        ensures
            final(self).wf(),
            final(self)@.recent == old(self)@.recent,
            final(self)@.history_limit == old(self)@.history_limit,
            exists|has_extension: Seq<bool>|
                #![trigger batch_catalog(old(self)@.catalog, batch@, has_extension)]
                has_extension.len() == batch@.len()
                && (forall|i: int| 0 <= i < batch@.len() ==> extension_answer_ok(#[trigger] batch@[i].image_path@, has_extension[i]))
                && final(self)@.catalog == batch_catalog(old(self)@.catalog, batch@, has_extension)
                && batch_agrees(result, batch@.len(), batch_rejections(old(self)@.catalog, batch@, has_extension)),
    {
        let ghost start = self@;
        let ghost all = batch@;
        let n = batch.len();
        let mut rest = batch;
        let mut loaded: usize = 0;
        let mut rejected: Vec<BatchRejection> = Vec::new();
        let ghost mut exts: Seq<bool> = Seq::empty();
        let mut i: usize = 0;
        while i < n
            invariant
                self.wf(),
                n == all.len(),
                0 <= i <= n,
                rest@ == all.subrange(i as int, n as int),
                exts.len() == i,
                forall|j: int| 0 <= j < i ==> extension_answer_ok(#[trigger] all[j].image_path@, exts[j]),
                self@.catalog == batch_catalog(start.catalog, all.take(i as int), exts),
                self@.recent == start.recent,
                self@.history_limit == start.history_limit,
                rejected@.map_values(|r: BatchRejection| r@) == batch_rejections(start.catalog, all.take(i as int), exts),
                loaded + rejected@.len() == i,
            decreases n - i,
        {
            let fish = rest.remove(0);
            assert(fish == all[i as int]);
            let id = fish.id.clone();
            let ghost before = self@.catalog;
            let ghost added = fish;
            let outcome = self.add_fish(fish);
            let ghost ext = choose|has_extension: bool|
                extension_answer_ok(added.image_path@, has_extension)
                && unit_agrees(outcome, #[trigger] add_issue(before, added, has_extension))
                && self@.catalog == catalog_after_add(before, added, has_extension);
            let ghost old_rejected = rejected@;
            match outcome {
                Ok(()) => {
                    loaded = loaded + 1;
                },
                Err(error) => {
                    rejected.push(BatchRejection { id, error });
                },
            }
            proof {
                let prefix = all.take(i + 1);
                assert(prefix.drop_last() == all.take(i as int));
                assert(prefix.last() == added);
                let new_exts = exts.push(ext);
                assert(new_exts.drop_last() == exts);
                exts = new_exts;
                assert(rejected@.map_values(|r: BatchRejection| r@) =~= batch_rejections(start.catalog, prefix, exts)) by {
                    assert(old_rejected.map_values(|r: BatchRejection| r@) == batch_rejections(start.catalog, all.take(i as int), exts.drop_last()));
                }
            }
            i = i + 1;
        }
        proof {
            assert(all.take(n as int) == all);
        }
        if rejected.len() > 0 {
            Err(PartialLoad { loaded, rejected })
        } else {
            Ok(loaded)
        }
    }

    /// Returns the total number of fish in the library.
    pub fn total_count(&self) -> (count: usize)
        requires
            self.wf(),
        ensures
            count == self@.catalog.len(),
    {
        proof {
            lemma_catalog_of(self.fish@);
        }
        self.fish.len()
    }

    /// Gets a fish by identifier.
    pub fn get_fish(&self, id: &str) -> (found: Option<&Fish>)
        requires
            self.wf(),
        ensures
            match found {
                Some(fish) => self@.catalog.contains_key(id@) && *fish == self@.catalog[id@],
                None => !self@.catalog.contains_key(id@),
            },
    {
        let key = String::from_str(id);
        match self.position_of(&key) {
            Some(i) => Some(&self.fish[i]),
            None => None,
        }
    }

    /// Returns statistics about the library.
    pub fn stats(&self) -> (stats: LibraryStats)
        requires
            self.wf(),
        ensures
            stats.total_fish == self@.catalog.len(),
    {
        LibraryStats { total_fish: self.total_count() }
    }
}

impl Default for FishLibrary {
    fn default() -> (library: Self)
        ensures
            library.wf(),
            library@.catalog == Map::<Seq<char>, Fish>::empty(),
            library@.recent == Seq::<Seq<char>>::empty(),
            library@.history_limit == RECENT_HISTORY_SIZE,
    {
        Self::new()
    }
}

/// The library's invariant as seen from outside: the catalog is finite,
/// every fish is filed under its own identifier, and the history holds at
/// most five identifiers.
pub proof fn lemma_library_invariant(library: &FishLibrary)
    requires
        library.wf(),
    ensures
        library@.catalog.dom().finite(),
        forall|k: Seq<char>| #[trigger] library@.catalog.contains_key(k) ==> library@.catalog[k].id@ == k,
        library@.history_limit == RECENT_HISTORY_SIZE,
        library@.recent.len() <= library@.history_limit,
{
    lemma_catalog_of(library.fish@);
    assert forall|k: Seq<char>| #[trigger] library@.catalog.contains_key(k) implies library@.catalog[k].id@ == k by {
        let i = choose|i: int| 0 <= i < library.fish@.len() && library.fish@[i].id@ == k;
        assert(library@.catalog[library.fish@[i].id@] == library.fish@[i]);
    }
}

/// Read after write: a fish that `add_fish` accepts is found under its
/// identifier afterwards and the library holds one more fish, while a
/// refused fish leaves the catalog as it was. An identifier that is taken
/// is refused for any valid fish.
pub proof fn lemma_add_then_get(catalog: Map<Seq<char>, Fish>, fish: Fish, has_extension: bool)
    requires
        catalog.dom().finite(),
    ensures
        add_issue(catalog, fish, has_extension) is None ==> {
            &&& catalog_after_add(catalog, fish, has_extension).contains_key(fish.id@)
            &&& catalog_after_add(catalog, fish, has_extension)[fish.id@] == fish
            &&& catalog_after_add(catalog, fish, has_extension).len() == catalog.len() + 1
        },
        add_issue(catalog, fish, has_extension) is Some ==> catalog_after_add(catalog, fish, has_extension) == catalog,
        catalog.contains_key(fish.id@) && validation_issue(fish@, has_extension) is None
            ==> add_issue(catalog, fish, has_extension) == Some(LibraryIssue::DuplicateId(fish.id@)),
{
}

/// Identifiers stay unique: once a fish is accepted, adding any fish with
/// the same identifier is refused and changes nothing.
pub proof fn lemma_second_add_refused(
    catalog: Map<Seq<char>, Fish>,
    first: Fish,
    first_extension: bool,
    second: Fish,
    second_extension: bool,
)
    requires
        add_issue(catalog, first, first_extension) is None,
        second.id@ == first.id@,
    ensures
        add_issue(catalog_after_add(catalog, first, first_extension), second, second_extension) is Some,
        catalog_after_add(catalog_after_add(catalog, first, first_extension), second, second_extension)
            == catalog_after_add(catalog, first, first_extension),
{
}

/// The history window: recording an identifier makes it the newest entry,
/// keeps the history within its limit, and keeps the newest of the earlier
/// entries in order.
pub proof fn lemma_history_window(recent: Seq<Seq<char>>, id: Seq<char>, limit: nat)
    requires
        limit > 0,
        recent.len() <= limit,
    ensures
        recorded(recent, id, limit).len() <= limit,
        recorded(recent, id, limit).last() == id,
        recorded(recent, id, limit) == recent.push(id).subrange(
            recent.push(id).len() - recorded(recent, id, limit).len(),
            recent.push(id).len() as int,
        ),
        recent.len() < limit ==> recorded(recent, id, limit) == recent.push(id),
{
    if recent.push(id).len() > limit {
        assert(recent.push(id).drop_first() =~= recent.push(id).subrange(1, recent.push(id).len() as int));
    } else {
        assert(recent.push(id) =~= recent.push(id).subrange(0, recent.push(id).len() as int));
    }
}

/// Duplicate avoidance: along the draws a selection makes, a recently
/// selected fish is taken only as the last allowed draw, after
/// `SELECTION_ATTEMPTS` draws that all hit recently selected fish; and the
/// first draw of a fish outside the history ends the selection with that
/// fish.
pub proof fn lemma_recent_fish_needs_three_misses(recent: Seq<Seq<char>>, candidates: Set<Seq<char>>, draws: Seq<Seq<char>>)
    requires
        draws_explain(recent, candidates, draws),
    ensures
        recent.contains(draws.last()) ==> draws.len() == SELECTION_ATTEMPTS + 1
            && forall|i: int| 0 <= i < SELECTION_ATTEMPTS ==> recent.contains(#[trigger] draws[i]),
        forall|i: int| 0 <= i < draws.len() && !recent.contains(#[trigger] draws[i]) ==> i == draws.len() - 1,
{
    assert forall|i: int| 0 <= i < draws.len() && !recent.contains(#[trigger] draws[i]) implies i == draws.len() - 1 by {
        if i < draws.len() - 1 {
            assert(!draw_accepted(recent, i, draws[i]));
        }
    }
    if recent.contains(draws.last()) {
        assert forall|i: int| 0 <= i < SELECTION_ATTEMPTS implies recent.contains(#[trigger] draws[i]) by {
            assert(!draw_accepted(recent, i, draws[i]));
        }
    }
}

/// Every candidate can be selected, whatever the history: when the random
/// choices give that candidate (once if it is not recent, four times if
/// it is), the selection returns it. With `selection_drawn`, which ties the
/// returned fish to the draws actually made, no candidate is left out.
pub proof fn lemma_every_candidate_can_be_selected(
    recent: Seq<Seq<char>>,
    candidates: Set<Seq<char>>,
    chosen: Seq<char>,
)
    requires
        candidates.contains(chosen),
    ensures
        !recent.contains(chosen) ==> draws_explain(recent, candidates, seq![chosen]),
        recent.contains(chosen) ==> draws_explain(recent, candidates, seq![chosen, chosen, chosen, chosen]),
        selected_after_draws(recent, candidates, chosen),
{
    if recent.contains(chosen) {
        let draws = seq![chosen, chosen, chosen, chosen];
        assert forall|i: int| 0 <= i < draws.len() implies candidates.contains(#[trigger] draws[i]) by {}
        assert forall|i: int| 0 <= i < draws.len() - 1 implies !draw_accepted(recent, i, #[trigger] draws[i]) by {}
        assert(draws_explain(recent, candidates, draws));
    } else {
        let draws = seq![chosen];
        assert(draws_explain(recent, candidates, draws));
    }
}

/// The fish a selection returns is what the random chooser gave at the
/// draw that ended it: the last draw recorded, a choice among exactly the
/// candidates; every earlier draw gave a recently selected fish.
pub proof fn lemma_selection_returns_the_drawn_fish(
    recent: Seq<Seq<char>>,
    candidates: Set<Seq<char>>,
    draws: Seq<DrawRecord>,
    chosen: Seq<char>,
)
    requires
        picks_select(recent, candidates, draws, chosen),
    ensures
        1 <= draws.len() <= SELECTION_ATTEMPTS + 1,
        draws.last() matches DrawRecord::Picked { among, picked: Some(id) } && id == chosen && among.to_set() == candidates,
        candidates.contains(chosen),
        forall|i: int| 0 <= i < draws.len() - 1 ==> recent.contains(#[trigger] picked_id(draws[i])),
{
    let ids = draws.map_values(|d: DrawRecord| picked_id(d));
    assert(ids[ids.len() - 1] == chosen);
    assert(candidates.contains(ids[ids.len() - 1]));
    assert forall|i: int| 0 <= i < draws.len() - 1 implies recent.contains(#[trigger] picked_id(draws[i])) by {
        assert(ids[i] == picked_id(draws[i]));
        assert(!draw_accepted(recent, i, ids[i]));
    }
    assert(draws[draws.len() - 1] matches DrawRecord::Picked { among, picked: Some(_) });
}

/// A selection only ever returns one of its candidates.
pub proof fn lemma_selection_stays_among_candidates(recent: Seq<Seq<char>>, candidates: Set<Seq<char>>, chosen: Seq<char>)
    requires
        selected_after_draws(recent, candidates, chosen),
    ensures
        candidates.contains(chosen),
{
    let draws = choose|draws: Seq<Seq<char>>| #[trigger] draws_explain(recent, candidates, draws) && draws.last() == chosen;
    assert(candidates.contains(draws[draws.len() - 1]));
}

/// The playtest choice shows a readable fish inside the assets directory:
/// its image path was judged contained (so it is neither `..` nor starts
/// with `../`, and a path without root or prefix has no `..` segment
/// anywhere), and the readability check was asked about the chosen fish and
/// answered `true`.
pub proof fn lemma_playtest_choice_is_readable<F: Fn(&Fish) -> bool>(
    image_is_readable: F,
    catalog: Map<Seq<char>, Fish>,
    eligible: Set<Seq<char>>,
    chosen: Seq<char>,
)
    requires
        reports_eligible(image_is_readable, catalog, eligible),
        eligible.contains(chosen),
    ensures
        catalog.contains_key(chosen),
        containment_answer_ok(catalog[chosen].image_path@, true),
        !starts_with_parent(catalog[chosen].image_path@),
        surely_relative(catalog[chosen].image_path@) ==> !has_parent_segment(catalog[chosen].image_path@),
        image_is_readable.ensures((&catalog[chosen],), true),
{
    assert(eligibility_agrees(image_is_readable, catalog[chosen], true));
    let contained = choose|contained: bool|
        #[trigger] containment_answer_ok(catalog[chosen].image_path@, contained) && if contained {
            image_is_readable.ensures((&catalog[chosen],), true)
        } else {
            !true
        };
    assert(contained);
}

/// For a path without root, prefix or `\`, every answer to "does it stay
/// inside the assets directory?" is the same: it does exactly when no
/// `/`-separated segment is `..`.
pub proof fn lemma_containment_is_fixed(path: Seq<char>, contained: bool)
    requires
        containment_answer_ok(path, contained),
        surely_relative(path),
        !path.contains('\\'),
    ensures
        contained == !has_parent_segment(path),
{
}

/// The eligible count and the playtest selection judge the same fish
/// eligible: for a catalog whose image paths have no root, prefix or `\`
/// (so their containment is fixed) and a readability check that gives one
/// answer per fish, any two judgements of eligibility agree. Hence
/// `select_random_playtest_fish` fails with `NoEligibleFish` exactly when
/// `playtest_eligible_count` is 0, and a selected fish is one the count
/// counted.
pub proof fn lemma_eligibility_is_consistent<F: Fn(&Fish) -> bool>(
    image_is_readable: F,
    catalog: Map<Seq<char>, Fish>,
    first: Set<Seq<char>>,
    second: Set<Seq<char>>,
)
    requires
        reports_eligible(image_is_readable, catalog, first),
        reports_eligible(image_is_readable, catalog, second),
        forall|k: Seq<char>| #[trigger] catalog.contains_key(k) ==> surely_relative(catalog[k].image_path@)
            && !catalog[k].image_path@.contains('\\'),
        forall|k: Seq<char>, one: bool, other: bool|
            catalog.contains_key(k) && #[trigger] image_is_readable.ensures((&catalog[k],), one)
                && #[trigger] image_is_readable.ensures((&catalog[k],), other) ==> one == other,
    ensures
        first == second,
        first.len() == 0 <==> second.len() == 0,
{
    assert forall|k: Seq<char>| first.contains(k) <==> second.contains(k) by {
        if catalog.contains_key(k) {
            let fish = catalog[k];
            assert(eligibility_agrees(image_is_readable, fish, first.contains(k)));
            assert(eligibility_agrees(image_is_readable, fish, second.contains(k)));
            let c1 = choose|contained: bool|
                #[trigger] containment_answer_ok(fish.image_path@, contained) && if contained {
                    image_is_readable.ensures((&fish,), first.contains(k))
                } else {
                    !first.contains(k)
                };
            let c2 = choose|contained: bool|
                #[trigger] containment_answer_ok(fish.image_path@, contained) && if contained {
                    image_is_readable.ensures((&fish,), second.contains(k))
                } else {
                    !second.contains(k)
                };
            lemma_containment_is_fixed(fish.image_path@, c1);
            lemma_containment_is_fixed(fish.image_path@, c2);
        }
    }
    assert(first =~= second);
}

/// Loading a batch grows the library by exactly the number of accepted
/// fish: the count that a batch reports equals the growth of the catalog.
pub proof fn lemma_batch_growth(catalog: Map<Seq<char>, Fish>, batch: Seq<Fish>, has_extension: Seq<bool>)
    requires
        catalog.dom().finite(),
        has_extension.len() == batch.len(),
    ensures
        batch_catalog(catalog, batch, has_extension).dom().finite(),
        batch_rejections(catalog, batch, has_extension).len() <= batch.len(),
        batch_catalog(catalog, batch, has_extension).len() == catalog.len() + batch.len()
            - batch_rejections(catalog, batch, has_extension).len(),
    decreases batch.len(),
{
    if batch.len() > 0 {
        lemma_batch_growth(catalog, batch.drop_last(), has_extension.drop_last());
    }
}

/// A prefix of a prefix is a prefix, and the events before `i` are the same
/// whether or not the last event is dropped first.
proof fn lemma_take_of_drop_last(events: Seq<LibraryEvent>, i: int)
    requires
        0 <= i < events.len(),
    ensures
        events.drop_last().take(i) == events.take(i),
{
    assert(events.drop_last().take(i) =~= events.take(i));
}

/// The catalog's keys are the identifiers of the accepted adds.
pub open spec fn keys_are_accepted(events: Seq<LibraryEvent>) -> bool {
    forall|k: Seq<char>|
        #[trigger] run_events(events).catalog.contains_key(k) <==> exists|i: int|
            accepted_at(events, i) && #[trigger] event_fish(events[i]).id@ == k
}

/// Each accepted fish is filed under its identifier.
pub open spec fn values_are_accepted(events: Seq<LibraryEvent>) -> bool {
    forall|i: int|
        #[trigger] accepted_at(events, i) ==> run_events(events).catalog[event_fish(events[i]).id@]
            == event_fish(events[i])
}

/// No two accepted adds share an identifier.
pub open spec fn accepted_unique(events: Seq<LibraryEvent>) -> bool {
    forall|i: int, j: int|
        #[trigger] accepted_at(events, i) && #[trigger] accepted_at(events, j) && event_fish(events[i]).id@
            == event_fish(events[j]).id@ ==> i == j
}

/// Events before the last one are accepted in the whole sequence exactly
/// when they are accepted in the sequence without its last event.
proof fn lemma_accepted_prefix(events: Seq<LibraryEvent>)
    requires
        events.len() > 0,
    ensures
        forall|i: int| 0 <= i < events.len() - 1 ==> #[trigger] accepted_at(events, i) == accepted_at(events.drop_last(), i),
        forall|i: int| 0 <= i < events.len() - 1 ==> #[trigger] event_fish(events[i]) == event_fish(events.drop_last()[i]),
        accepted_at(events, events.len() - 1) <==> (events.last() is Added && add_issue(
            run_events(events.drop_last()).catalog,
            event_fish(events.last()),
            events.last()->has_extension,
        ) is None),
        run_events(events).catalog == (if accepted_at(events, events.len() - 1) {
            run_events(events.drop_last()).catalog.insert(event_fish(events.last()).id@, event_fish(events.last()))
        } else {
            run_events(events.drop_last()).catalog
        }),
{
    let p = events.drop_last();
    assert(events.take(events.len() - 1) =~= p);
    assert forall|i: int| 0 <= i < events.len() - 1 implies #[trigger] accepted_at(events, i) == accepted_at(p, i) by {
        lemma_take_of_drop_last(events, i);
        assert(events[i] == p[i]);
    }
}

proof fn lemma_keys_step(events: Seq<LibraryEvent>)
    requires
        events.len() > 0,
        keys_are_accepted(events.drop_last()),
    ensures
        keys_are_accepted(events),
{
    let p = events.drop_last();
    let n = events.len() - 1;
    lemma_accepted_prefix(events);
    let before = run_events(p).catalog;
    let after = run_events(events).catalog;
    assert forall|k: Seq<char>|
        #[trigger] after.contains_key(k) <==> exists|i: int|
            accepted_at(events, i) && #[trigger] event_fish(events[i]).id@ == k by {
        if after.contains_key(k) {
            if before.contains_key(k) {
                let i = choose|i: int| accepted_at(p, i) && #[trigger] event_fish(p[i]).id@ == k;
                assert(accepted_at(events, i) && event_fish(events[i]).id@ == k);
            } else {
                assert(accepted_at(events, n) && event_fish(events[n]).id@ == k);
            }
        }
        if exists|i: int| accepted_at(events, i) && #[trigger] event_fish(events[i]).id@ == k {
            let i = choose|i: int| accepted_at(events, i) && #[trigger] event_fish(events[i]).id@ == k;
            if i < n {
                assert(accepted_at(p, i) && event_fish(p[i]).id@ == k);
            }
        }
    }
}

proof fn lemma_values_step(events: Seq<LibraryEvent>)
    requires
        events.len() > 0,
        keys_are_accepted(events.drop_last()),
        values_are_accepted(events.drop_last()),
    ensures
        values_are_accepted(events),
{
    let p = events.drop_last();
    let n = events.len() - 1;
    lemma_accepted_prefix(events);
    let before = run_events(p).catalog;
    assert forall|i: int| #[trigger] accepted_at(events, i) implies run_events(events).catalog[event_fish(events[i]).id@]
        == event_fish(events[i]) by {
        if i < n {
            assert(accepted_at(p, i));
            assert(before.contains_key(event_fish(p[i]).id@));
            if accepted_at(events, n) {
                assert(!before.contains_key(event_fish(events[n]).id@));
            }
        }
    }
}

proof fn lemma_unique_step(events: Seq<LibraryEvent>)
    requires
        events.len() > 0,
        keys_are_accepted(events.drop_last()),
        accepted_unique(events.drop_last()),
    ensures
        accepted_unique(events),
{
    let p = events.drop_last();
    let n = events.len() - 1;
    lemma_accepted_prefix(events);
    let before = run_events(p).catalog;
    assert forall|i: int, j: int|
        #[trigger] accepted_at(events, i) && #[trigger] accepted_at(events, j) && event_fish(events[i]).id@
            == event_fish(events[j]).id@ implies i == j by {
        if i < n && j < n {
            assert(accepted_at(p, i) && accepted_at(p, j));
        } else if i < n {
            assert(accepted_at(p, i));
            assert(before.contains_key(event_fish(p[i]).id@));
        } else if j < n {
            assert(accepted_at(p, j));
            assert(before.contains_key(event_fish(p[j]).id@));
        }
    }
}

/// Catalog law over any sequence of calls on a new library: the catalog
/// holds exactly the fish whose `add_fish` was accepted, each under its
/// identifier; at most one add per identifier is ever accepted (later adds
/// of a taken identifier are refused); selections and clears never change
/// it. With `get_fish`'s contract this gives what `get_fish` returns after
/// any sequence of adds, selections and clears.
pub proof fn lemma_catalog_after_events(events: Seq<LibraryEvent>)
    ensures
        run_events(events).catalog.dom().finite(),
        run_events(events).history_limit == RECENT_HISTORY_SIZE,
        keys_are_accepted(events),
        values_are_accepted(events),
        accepted_unique(events),
    decreases events.len(),
{
    if events.len() > 0 {
        lemma_catalog_after_events(events.drop_last());
        lemma_keys_step(events);
        lemma_values_step(events);
        lemma_unique_step(events);
    } else {
        assert(run_events(events).catalog =~= Map::<Seq<char>, Fish>::empty());
    }
}

/// History law over any sequence of calls on a new library: the history
/// holds the identifiers returned by the last five successful selections
/// since the last `clear_history`, oldest first (all of them when there
/// were fewer). Adds never change it.
pub proof fn lemma_history_after_events(events: Seq<LibraryEvent>)
    ensures
        run_events(events).recent == last_entries(selections_since_clear(events), RECENT_HISTORY_SIZE as nat),
        run_events(events).history_limit == RECENT_HISTORY_SIZE,
    decreases events.len(),
{
    if events.len() > 0 {
        let p = events.drop_last();
        lemma_history_after_events(p);
        let s = selections_since_clear(p);
        match events.last() {
            LibraryEvent::Selected { id } => {
                let w = last_entries(s, 5);
                if s.len() < 5 {
                    assert(recorded(w, id, 5) =~= last_entries(s.push(id), 5));
                } else {
                    assert(recorded(w, id, 5) =~= last_entries(s.push(id), 5));
                }
            },
            LibraryEvent::Cleared => {
                assert(last_entries(Seq::<Seq<char>>::empty(), 5) =~= Seq::<Seq<char>>::empty());
            },
            LibraryEvent::Added { .. } => {},
        }
    }
}

} // verus!
