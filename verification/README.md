# engine

The verified core of a 3D engine, written with Verus.

`src/` holds the logic that can be stated over integers, booleans, strings
and collections, each function with a contract and each proof checked:

- scene bookkeeping: entity id mapping (`entity`), component classification
  and spawn mapping (`scene`), per-entity census and scene statistics
  (`census`), the debug overlay's schedule and texts (`debug_overlay`),
  development log records (`dev`), asset references and their validation
  (`assets`, `asset_manager`), hot-reload debouncing (`hot_reload`);
- the parent/child hierarchy: the once-per-frame gate and the breadth-first
  update plan (`hierarchy`);
- physics bookkeeping: body and collider registry (`body_registry`),
  constraint-graph colouring (`coloring`), sweep and prune and the canonical
  pair list (`broad_phase`), the uniform-grid spatial hash (`spatial_hash`),
  physics-scene advice (`scene_validation`);
- rendering details with integer answers: scissor clamping (`scissor`), mesh
  index topology (`mesh_topology`), visibility history (`culling`), galaxy
  sector grids (`galaxy`), input state (`input`), text helpers (`text`).

`app/` is ordinary Rust around the core: JSON scene files, `tracing` output,
clocks, hecs worlds, and the floating-point work (matrices, bounding boxes,
world-to-cell rounding) that the core leaves out.

Three parts of the engine appear in neither `src/` nor `app/`: rendering
(wgpu pipelines and draw passes), physics solving (rapier bodies and the
floating-point contact resolution) and the coordinate systems built on glam
vectors and quaternions. Their integer bookkeeping (body registry, broad
phase, colouring, culling history, sector grids) is in `src/`.

Development logging is switched on in the core; `app/` emits its records only
in debug builds, so release builds log nothing from the development tools.

`tests/` exercises the core through its public interface.
