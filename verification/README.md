# roulette

A wheel of fortune for the Godot engine whose segments can lead on to further
wheels, with its rules verified by Verus.

- `src/` is the verified library: the wheel configuration (`data`), how a
  wheel is cut into equal segments and which segment a spin lands on
  (`segments`), the wheel's state and its transitions (`selection_wheel`), the
  running list of choices (`choice`) and when the wheel is shown (`ui`).
- `app/` is the Godot extension around it: the engine classes, drawing,
  label placement, the spin animation and reading `roulette.json`.
- `tests/` exercises the library on concrete wheels.

Segment bounds are exact fractions of a full turn; the engine draws them with
floats.
