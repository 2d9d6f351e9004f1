# puyopuyo

A two-player falling-pairs puzzle game. The rules of the game live in a
library whose behaviour is stated in contracts and proved with Verus; a
thin program drives it with the Bevy engine.

## Layout

- `src/` — the verified library.
  - `grid`, `groups`, `chain`, `gravity`: the field as a flat grid, the
    groups of same-coloured blocks, one step of a chain and its score, and
    blocks falling into gaps.
  - `field`, `piece`, `moving`, `ready`: a player's field, the falling pair
    (moving, turning, landing, fixing) and the check that a frame can run.
  - `ojama`: garbage blocks received, sent, dropped and shown as icons.
  - `steps`: one frame of a field in each of its states, and what the game
    around it has to do afterwards.
  - `frames`: what every frame keeps (walls, counter ranges, the shape of
    the falling pair), so that a field stays ready for its next frame.
  - `menus`, `keys`, `rng`, `generator`, `game_statics`: the title menu, the
    course of a match, the keys of a frame, the pair generator (whose seed
    record only the seeding calls write) and the shared types.
- `tests/` — tests of the library on concrete fields.
- `app/` — the program: windows, sprites, input devices and messages between
  the two fields, all through the engine.
