# deer

A flowchart editor and interpreter. Diagrams of nodes (start, stop, input, output,
conditions, arithmetic, definitions, actions, function calls) joined by connectors are
read from and written to the legacy FPP text format or JSON, edited on a canvas, and run
step by step.

## Layout

- `src/` — the verified library (Verus):
  - `model/` — nodes, connectors and diagrams, with the FPP reader and writer
    (`fpp.rs`) and what holds of them (`fpp_laws.rs`);
  - `engine/` — named tables of values (`table.rs`), how expressions read
    (`evaluator.rs`), what the assignment-like nodes decide (`node_exec.rs`), the
    interpreter's state machine (`runner.rs`) and its laws (`runner_laws.rs`);
  - `ui/` — the plain state and decisions of the editor's panels: the variable names a
    diagram mentions, the palette's search, the kinds of console lines;
  - `text.rs`, `order.rs`, `search.rs` — character sequences, their order, and first
    positions.
- `app/` — the program: the egui editor, the floating-point arithmetic of the
  interpreter, the step loop that joins the two, file dialogs and the JSON format.
- `tests/` — tests of the library.

The interpreter computes with a number type `N` of the program's choosing; the program
uses `f64`.
