# poggy

The logic of a lock-step networked game, verified with Verus.

- `src/` is the verified library:
  - `syncer`: per-frame data streams (player inputs, bonus events), cutting segments out of them and writing segments in.
  - `logic_storage`: every player's stream and the bonus stream; what a frame's simulation uses, and what to ask for when something is missing.
  - `eid_manager`, `pending_entity`, `comp_store`, `ent_changes`: generational entity ids and component storage grouped by composition.
  - `super_vec`, `object_holder`: values of any component type kept as bytes, and the byte forms they travel in.
  - `input_dist`: where the local player's inputs go, as they change and as frames start.
  - `timekeeping`, `debug_timer`, `clock`: which frame the game should be on, and named stopwatches; `clock` holds the calls that read the machine's clocks.
  - `components`: the game's component types.
- `tests/` runs the library on concrete values.
- `app/` is the program around it: logging, arguments, the threads of the logic pipeline, and the serde forms of the library's types.
