# roncad

The verified core of RONCAD, a small precision-first desktop CAD
application. The library (`src/`) is written in Verus: every function
carries a contract that the verifier proves, and the laws the library
promises are proof functions.

## Layout

- `src/ids.rs`, `src/command.rs`, `src/selection.rs`, `src/dispatch.rs` –
  identifiers, command kinds, the selection set and how each command edits it.
- `src/project.rs`, `src/dispatcher.rs` – the project model (sketches with
  their entities, dimensions and constraints, bodies, features, the active
  sketch, fresh ids) and the command dispatcher, the single place where
  commands change the project and the selection.
- `src/constraint.rs`, `src/sketch.rs` – constraints between sketch entities
  and a sketch's constraint table, kept in a slot map.
- `src/solver.rs` – the integer side of the constraint solver: the layout of
  unknowns, which constraints can be evaluated, and the solve status.
- `src/topology.rs`, `src/feature.rs`, `src/body.rs`, `src/naming.rs` –
  canonical profile keys, feature-to-profile links, bodies and the serial
  names of new bodies and features.
- `src/schema.rs` – the reference layer of the project file: file ids,
  duplicate and missing references, constraint records.
- `src/loading.rs` – reading a whole project file's references in file
  order, reporting the first problem met.
- `src/saving.rs` – writing a project's references in file form, and the
  law that what is written reads back to the same project.
- `src/document.rs` – file names, labels, window titles, recent files,
  settings versions and the unsaved-changes dialogs.
- `src/tools/` – dynamic numeric input, tool phases and hints, the select
  tool, preselection cycling and snap vocabulary.
- `src/hover.rs`, `src/transaction.rs` – hover targets and command batches.
- `src/rendering.rs`, `src/error.rs`, `src/event.rs`, `src/text.rs` –
  projection mode, edge kinds, errors, events and decimal text.

`app/` holds the program around the library: settings files, JSON copies of
the file records and the save and open paths, slot-map key conversions and
error types for display, the workspace that runs every command through the
dispatcher, and the floating-point geometry: entity coordinates, the numeric
solver, snapping and extrusion meshes, which use the library's layouts and
decisions.
`tests/` exercises the library on concrete values.
