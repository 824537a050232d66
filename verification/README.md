# game_engine

A colony simulation's rules as a verified Verus library, with a thin Rust
layer around it.

## Layout

- `src/` — the library, every function verified by Verus: the grid and tile
  generation, collision and navigation (walkability snapshots, shortest
  paths, routes), buildings and their placement rules, construction,
  storage and the reservation ledger, logistics hauls, roads, farming and
  forestry plots, housing, colonist needs, work assignment and the idle
  roam, names, resources and their daily history, and the simulation clock.
  Each ECS system's decisions stand here as a function from the state it
  reads to the change it makes.
- `tests/` — the library's tests.
- `app/` — the `bevy_ecs` world around the library: components, the system
  schedule, the floating-point movement step and facing, and the engine
  bindings. It reads the world into plain values, calls the library and
  writes the answer back.

## Scope

The resource model has four kinds: wood, stone, food and gold. Building and
road costs are expressed in them (timber as wood, cut stone as stone).
Refineries (sawmill, stoneworks, kitchen) are buildings with pull settings
and the raw kinds they take, but refined goods are not modelled: there are
no refining recipes, refinery input/output inventories or refining work,
and no separate labor phase of construction; a blueprint completes once
its cost is deposited.
