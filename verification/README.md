# taarib_tabaqa

The overlay layer of an Arabic game-translation tool: regions read off a
game's screen, the text recognized in them, the lines followed across frames
until they settle, the translation memory and reading history, the in-game
control panel, and the account of what all of it costs.

The library in `src/` is written in Verus. Every function carries a contract,
and the properties the layer promises across calls (identities never reused,
a history that never exceeds its capacity, a memory that gives back what was
stored, a detector that raises a candidate once per sample, ...) are stated as
proof functions named `qanun_*` beside the code they are about.

## Layout

- `src/` — the verified library.
  - `manatiq`, `muharrir`, `iktishaf`: regions, the region editor's drags, and
    the detector that proposes regions where text keeps appearing.
  - `qira`, `tatabbu`, `talqeem`: recognized lines, their rejoining and
    judging, following them across frames, and what is drawn over them.
  - `mutarjim`, `mutarjim_mahalli`, `khazina`, `sijill_qira`: translation
    replies, the local provider's wire format, the memory and the history.
  - `lawhat_tahakkum`, `khittat_lawha`: the control panel's state, commands,
    keyboard table, and what each page shows.
  - `qudra`, `sidq`, `qissa`, `rasm_tabaqa`, `wajiha`, `khata`, `luba`,
    `nass`, `tartib`: verdicts, the disclosure, session counters, colours and
    atlas texels, shared types and text helpers.
- `app/` — ordinary Rust around the library: sockets, files (the bindings
  and region files are read there and typed there, after the library has
  checked their bytes), locks, and the
  floating-point geometry (surface fractions, similarity scores, the panel's
  column layout) whose outcomes the library decides from.
- `tests/` — tests of the library on concrete values.

Rectangles in surface fractions are carried through the library as an opaque
type parameter; every judgement that needs their arithmetic is made in `app/`
and handed in as a value.
