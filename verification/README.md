# srcwroller

Decision logic of a helper that rerolls the opening of the "currency wars"
mode of a mobile game until the opening matches one of the wanted
combinations of boss affixes, investment environment and investment
strategy. The logic is a Verus-verified library; the program around it
drives an Android device over ADB and reads the screen with OCR.

Layout:

- `src/` — the verified library
  - `text.rs`, `order.rs` — substring search, lexicographic order, sorted unique lists
  - `selection.rs` — wanted openings, narrowing them as the run reveals the
    affixes, environment and strategy, and choosing a card on offer
  - `pages.rs` — recognising the game's screens from recognised text, locating
    buttons, reading cards, affixes and refresh counts
  - `machine.rs` — one reroll run as a step machine from events to actions
  - `transitions.rs` — the machine's steps as functions of its model, which
    `RerollMachine::step` is proved to follow, and laws about whole steps
  - `picture.rs` — decoding the screen capture and the built-in pictures,
    and cutting a region out of a picture (calls into the `image` crate)
  - `geometry.rs`, `keys.rs`, `screen_size.rs`, `device.rs`, `config.rs`,
    `catalog.rs`, `shell.rs` — device choice, key codes, screen size parsing,
    settings defaults, the page test's catalogue and shell commands
- `tests/` — tests of the library
- `app/` — the command line program: ADB, OCR, template matching, the
  settings file, and the loop that performs the machine's actions
