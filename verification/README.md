# archflow_logic

The logic layer of the ArchFlow engine: an entity-component system (sparse
sets, archetypes, component registry, world, queries), the logic bricks of
the hybrid sensor/controller/actuator model, undoable commands, an event
ring buffer, scene definitions and their load plan, spatial grids, Morton
codes and sound playback state.

- `src/` is the library, verified with Verus. Functions carry contracts
  over models of the data (sequences, sets, maps), and the properties the
  library promises across calls, such as that entities with the same
  component types share an archetype, are stated and proved as proof
  functions beside the code they are about. Which Rust type a generic
  parameter stands for is not modelled: `ComponentId::of` and
  `ComponentId::from_type_name` have no contract, and the values kept in
  type-erased component storages are not described.
- `tests/` runs the library on concrete values.
- `app/` holds what works on floating-point values, serde forms, trait
  objects and outside traits (physics, collision boxes, the component
  factories and scene files, system scheduling, audio callbacks), calling
  the library for every decision it can make.
