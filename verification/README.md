# render3d

A small software 3D renderer for Windows: it loads a mesh from a Wavefront
OBJ file, moves a camera with the W/A/S/D keys and the mouse, shades and
clips the triangles, and draws them with GDI.

- `src/` is the verified library (Verus): colour shading (`color`), decoding
  of key and mouse messages (`input`), the decision table of clipping a
  triangle against a plane (`clip`), and the OBJ format (`obj`).
- `app/` is the program around it: the window and its message loop, GDI
  drawing, and the floating-point geometry (vectors, matrices, projection,
  the crossing points of clipped edges, the coordinates of vertices).
- `tests/` runs the library on concrete inputs.
