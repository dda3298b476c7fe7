# blendtris

A single-column falling-blocks game. Pieces are stacks of one to three
primary colours (red, green, blue); a piece falls until one of its colours
would overlap the same colour below it, and where it lands its colours mix
with the column's. A row that holds all three primaries is white, and white
rows are cleared and scored.

- `src/` is the verified library: colours and mixing (`display`), the board
  with falling, landing and clearing (`board`), the game with scoring, speed,
  random pieces and input handling (`game`), and properties that hold across
  operations (`laws`).
- `app/` is the terminal front end: drawing with crossterm, reading keys,
  sleeping between frames.
- `tests/` runs the library on concrete boards.
