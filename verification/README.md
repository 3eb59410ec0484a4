# hexagolm

The game rules of hexagolm, a small farming and combat game, written in Verus
with their contracts proved.

- `src/` is the verified library: hit points, the weapon-wielding state
  machines, inventories and their GUI slots, dragging in the GUI, fading,
  growing and animation counters, the bookkeeping of dead entities, the
  tracking of prefab instances (keeping them fresh, clearing them, and the
  editor's selection with undo and redo), the tag bank scripts query, the
  collision markers, and the flow between the farming and combat modes.
  Each module states its rules over mathematical models (`Seq`, `Set`,
  `Map`) and proves laws about them, such as undo restoring a selection or a
  mode being set up once per visit.
- The prefab table and the table of placed instances are `slotmap` slot
  maps. Verus cannot declare `SlotMap` itself (its key parameter is bound by
  the crate's `Key` trait), so each sits in a struct Verus does not look
  into, `src/world/prefab/table.rs`, whose contents are named by a spec
  function and whose calls into `slotmap` are trusted wrappers; their doc
  comments say what each claims of the crate.
- `tests/` runs the library on concrete values.
- `app/` is a headless game loop over a `hecs` world that gathers the plain
  values the rules read and applies what they decide; the parts that work on
  floating point (damage scaled by speed, transparency) live there.
