# Particle sandbox

A two-dimensional sandbox of particles that fall, collide, bond, melt, float and are drawn, dragged,
copied and saved by the user.

- `src/` is the library. It holds everything that is decided or counted: the grid and its lists, the
  fate of links, contacts, tools, the end of a step, compaction, copying and pasting, the file
  format, spawning and growth, sources, the mouse, the pictures of saved scenes, the material book
  and the choice of device and capacity. Every function states what it does, and Verus proves it.
  Public proof functions named `law_…` state what holds of several functions together.
- `app/` is the program around it: the window, the graphics device, the panels, files, and the
  arithmetic on floating-point numbers.
- `tests/` runs the library.

Numbers of the simulation cross the library as `Single`: the bits of a 32-bit floating-point number.
The library compares, negates, clamps and truncates them; sums, products and roots are computed in
`app/` and handed over as readings, one structure for each decision that needs them.

The program reads `shader_compute.wgsl`, `shader_render.wgsl`, `shader_render_compat.wgsl`,
`icon.ico` and `materials.json` from the directory it is started in, and keeps its files under
`saves/` and `blueprints/`.
