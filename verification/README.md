# knotted_portal

Six worlds joined by a trefoil-knot portal and six spherical portals.

`src/` is the verified library:

- `worlds` — world numbers and per-world colour slots.
- `portal` — the arcs of the knot diagram, the sheets of the knot, the
  spherical portals, and `travel`: the world a straight path leads to, given
  where it meets the knot's shadow and the spheres.
- `portal_laws` — what holds of every path: crossings are taken in time order
  (stably), every crossing is undone by crossing it again, a return trip leads
  back (also for a second path meeting the passages in reverse order), a trip
  split where the path meets nothing ends where the whole trip does, and the
  arcs pair the worlds as the diagram draws them.
- `knot` — the grid of the trefoil tube and the tints of its three arcs.
- `subdivision` — splitting triangles by edge midpoints, in barycentric weights.
- `shapes` — the meshes of the models by corner index, with their orientation
  (closed where the mesh is closed).
- `subdivision` also proves that splitting `a + b` times is splitting `a` times
  and then each cell `b` times, and `split_each` splits a list of triangles
  with each parent's cells kept together, in order.
- `scene` — where the props of each world stand.

`app/` holds the floating-point side: vertex positions, colours, the quartic
that locates where a path crosses the knot's shadow, and the sphere tests.
