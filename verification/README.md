# dithered_scene

A first-person Bevy scene: a player body driven by WASD and Space, meshes
drawn with a dithered material, and a custom flat render pass with its own
phase of items.

- `src/` is the verified library (Verus): the decisions of the scene's
  systems. `movement` picks the headings and the jump from the held keys,
  `order` sorts the flat phase front to back (through `radsort`), `queue`
  turns what the renderer found about visible entities into phase items,
  `pass` chooses how the main pass treats its colour target, `extract`
  folds a frame's asset events into the set of changed assets (in bevy's
  `HashSet`), and `prepare` keeps the queue of materials that must be
  retried in a later frame. `stable` defines the stable sort that the
  phase's order is proved equal to.
- `app/` is the Bevy program around it: plugins, systems, GPU and physics
  calls, and the floating-point work.
- `tests/` runs the library on concrete values.
