# raytracer

The verified core of a small physically based ray tracer, written in Verus.

`src/` is the library. Each public function has a contract, and the laws of
the library are proved as public proof functions:

- `array2d`: row-major grids (`Array2d`). Covers construction, resizing,
  reset, cell access, and flipping vertically (row by row, cloning), which
  for cells that clone to equal values is an exact reversal of the rows and
  an involution.
- `render`: tiling of an image into 32 x 32 blocks, and assembly of the
  rendered blocks. Each pixel lies in exactly one block, and the assembled
  image holds each block's pixels.
- `bvh`: the node layout of a bounding volume hierarchy over primitives
  (`BvhLayout`), the split-position rules of the median, spatial and SAH
  builders (the SAH fallback halves the count as an `f32` holds it), and
  strategy names. The leaves partition the primitives and hold
  at most two each; children are appended at the node count, left subtree
  first, each left run given by the builder's rule from the split that was
  proposed, and the median layout is fixed as a function of the count alone. Subdividing
  a leaf gives leaves that partition its run, and no node lies deeper than the
  number of primitives.
- `sdf_bvh`: the node layout of the hierarchy over signed distance objects
  (`SdfBvhLayout`). The leaves partition the objects, and children split
  their parent's run in halves; a run is split exactly when it holds more
  than two objects and the oracle answered that their centres spread
  (`split_point`). `visit_objects` walks the hierarchy for a
  ray, given which node boxes it hits: each object comes at most once, in
  increasing order, and, when boxes enclose their contents, no object the ray
  hits is skipped. Runs of at most two objects are leaves.
- `fileresolver`: search paths and path resolution; the disk is asked only
  of the candidate paths, in order, until one exists.
- `denoise`, `integrators`, `scene`: scene settings chosen by name (denoising,
  integrator, accelerator), the path depth of the path integrators, and the check that every shape names a material
  the scene defines.
- `samplers`: the integer mixing of the 2D hash.
- `texture`: the permutation table of Perlin noise (a seeded table is the
  byte identity shuffled by the seeded generator, and holds each byte once) and the lattice hashing of a noise cell.
- `text`: text equality.

`app/` holds the floating point and I/O side: vector types, bounding boxes,
JSON settings, random samplers, and the box computations that order
primitives while a hierarchy is built.

`tests/` checks the library on concrete values.
