# packing_interface

A desktop tool for two-dimensional strip packing: enter or generate rectangle
test cases, run Python or C++ packing algorithms on them, look at the
packings, and repack regions of a packing in child tabs.

- `src/` is the library, verified with Verus: reading the input form
  (`rect_input`), building and generating test cases (`config_parser`,
  `testcase_gen`, `sampling`, `random`), the algorithm templates
  (`algorithm_templates`), the programs and JSON handed to algorithms
  (`runner`), the hit grid of the drawing (`hit_grid`), the colour seed of a
  rectangle type (`palette`), the algorithm tabs (`tab_book`), the editing
  decisions of the workspace (`workspace`), and the laws that tie writing and
  reading the rectangle list together (`round_trip`).
- `app/` is the window built with `iced`: file dialogs, the processes that run
  algorithms, and everything that works on float coordinates (drawing,
  dragging, snapping, selection regions).
- `tests/` exercises the library on concrete values.
