# vbd_strand

A Vertex Block Descent simulator for a single elastic strand (a chain of
mass points joined by stretch springs, optionally with skip springs joining
every second vertex).

- `src/` is the verified library (Verus):
  - `strand`: the spring topology of a strand (`VBDStrand<S>`), built by
    `from_uniform` and `from_per_edge`, with the invariant that every
    vertex's adjacency list is exactly the increasing list of springs that
    touch it, and `springs_at`, the per-vertex spring lookup of the solver.
  - `schedule`: `SimClock`, the frame / substep / solver-iteration schedule
    of a run, proved to follow the simulation's loop nest.
  - `output`: `frame_file_name`, the zero-padded output file path of a frame.
  - `scene`: mass and stiffness layouts of the test scenes.
  The scalar type `S` of masses, lengths and stiffnesses is generic: the
  library only moves such values and never computes with them.
- `app/` is the program: scene geometry, the floating-point solver on
  nalgebra, and JSON output, driven by the library.
- `tests/` runs the library on concrete strands and runs.
