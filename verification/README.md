# which_bowl

The logic of "Which Bowl is the Fish In?", a small fish-guessing game,
written in Verus with its behaviour stated in contracts and proved.

- `src/fish/` — fish records and their validation (`mod.rs`), the fish
  catalog with duplicate-avoiding random selection and batch loading
  (`library.rs`), rarity tiers and the weighted roll (`rarity.rs`), and the
  calls into `rand` (`chance.rs`).
- `src/round.rs` — the round state machine: where the fish hides, what a
  click on a bowl does, and the transitions between playing, a failed reveal
  and the reveal.
- `src/text.rs` — character classes and string measures.
- `app/` — the macroquad game around the library: window, drawing,
  animation timing, texture and TOML file loading.

## How the catalog is held

Fish are looked up by their string identifier. The catalog keeps them in a
`Vec<Fish>` whose invariant is that no identifier occurs twice, and its view
is a map from identifier to fish, so the contracts read as those of a map.
A `HashMap<String, Fish>` would give nothing to prove with: vstd states what
`HashMap` lookups and inserts do only for keys that obey its key model, and
it grants that model to primitive integers, `bool` and boxes of them, not to
`String`. The catalog is small, so the linear search costs nothing visible.

Random selection draws up to four times: each draw is judged by
`FishLibrary::accepts_draw`, whose contract is exact, and the first draw it
accepts is the fish returned.
