# Equipment procedure builder

A desktop tool for writing and running equipment diagnostic procedures: a
flowchart of steps (choices, measurements with tolerances, safety warnings and
nested sub-procedures), a guided runner that walks it, and an archive of saved
procedures.

- `src/` is the library, verified with Verus: the procedure model, the edits
  of the builder with undo and redo, the canvas checks, the layering of the
  automatic layout, the diagnostic runner, the archive catalogue and the
  interface texts. Each public function states its result in its contract;
  the laws that tie operations together (redo after undo, a step back after a
  move, the order of the archive, ...) are proof functions.
- `app/` is the egui application around it: windows, drawing, files and the
  JSON format on disk.
- `tests/` runs the library on concrete procedures.
