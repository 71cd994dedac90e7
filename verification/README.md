# soft_renderer

A software rasteriser for Windows. The verified library (`src/`, checked by
Verus) holds the parts of the renderer that are integer logic:

- `texture`: RGBA8 textures — pixel reads and writes, clamped and wrapped
  reads, conversion from an `image::DynamicImage`.
- `framebuffer`: the colour buffer (ARGB words) and the depth buffer (bit
  patterns of `f32` depths), with bounds-checked reads and writes and clears.
- `matrix3`, `matrix4`: 3x3 and 4x4 matrices over any scalar — entry access,
  transposes, minors, the upper-left block and the translation row.
- `staticmesh`: the binary mesh format (vertex count, vertices, name, index
  count, indices) decoded from bytes, and triangle assembly.

`app/` is the program around it: the Win32 window and message loop, file
loading, and everything computed in floating point (vectors, matrix
arithmetic, projection, the shading pipeline, bounding boxes).
