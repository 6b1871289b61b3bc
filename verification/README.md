# morphit_robot

Sphere-based collision models for robots and objects: the logic around a
sphere-packing optimizer, written and proved in Verus.

- `src/` is the library. It finds the collision meshes of a URDF package
  (`inspect`), plans how they are packed (`config`, `pack`), rewrites the URDF
  with the spheres (`assemble`), writes and reads object models
  (`object_model`, with `markup`, `object_document` and `round_trip` for the proof
  that what is written is read back), and holds what the front ends decide:
  the HTTP service (`server`), the C interface (`capi`), the command-line tool
  (`cli`, `report`), the JavaScript interface (`js`, `js_robot`) and the studio
  (`studio`).
  Measured numbers are texts here; which texts are numbers is decided in
  `numeral`.
- `tests/` runs the library.
- `app/` is the ordinary Rust around it: files, sockets, C pointers, floating-point
  arithmetic, and the traits behind which the optimizer stands.
