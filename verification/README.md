# garage

A terminal UI for viewing, navigating, searching and comparing `d8` trace
output: Maglev, TurboFan and Turboshaft graphs, bytecode listings and
disassembly.

- `src/` is the library, verified with Verus. `source`, `index` and `boundary`
  cut a trace into sections; `parse` reads the lines of a compilation; `view`
  lays them out as rows; `diff` compares two phases; `app` is the state of the
  program and what every event does to it; `ui` says what is on the screen;
  `survey` counts the lines of a trace by their shape.
- `app/` is the program around it: arguments, files, the terminal, the
  clipboard and drawing.
- `tests/` runs the library on concrete traces.

What the library promises beyond single functions stands in proof functions
whose names begin with `law_`. The few functions of other crates and of the
standard library that it relies on are wrapped one by one; the comment above
each wrapper says what is taken for granted.
