# simple_path_tracer

A small physically based path tracer whose integer and structural core is
written in Verus and proved against its contracts.

- `src/` — the verified library:
  - `image_range`: splitting image rows into bands, one per worker, with the proof
    that the bands tile the image.
  - `params`, `error`, `resources`: scene parameter blocks (with tracking of unread
    keys), load errors, and the named tables of textures, primitives, surfaces,
    materials, media and instances.
  - `material`, `medium`: materials and participating media, and the loading of
    their blocks (fractional numbers are carried as written).
  - `pixel_sampler`, `sampler`: which cell of a pixel each sample falls in, the
    choice of random sampler, and the strata a stratified sampler steps through.
  - `bvh`: bounding volume hierarchies — partitioning a node's primitives between
    its children, median-split trees, planner-driven trees, and searches that
    prune by box, with the proof that such a search finds what testing every
    primitive would (a hit, or the closest hit) when the boxes are conservative.
  - `primitive`, `instance`: primitive blocks, triangle index handling, and the
    loading of instances (placement steps, surface or material, primitive).
  - `renderer`, `scatter_type`: renderer selection and scattering event kinds.
- `app/` — floating-point geometry, shading and sampling, transforms, OBJ loading
  and the threaded render driver, built on the library.
- `tests/` — tests of the library on concrete values.

## Scope

Some parts of a full renderer are not part of this crate:

- Adaptive subdivision of Catmull-Clark meshes and the Bezier and Gregory patches
  built from them: they rest on a mesh crate that is not available here, and they
  are floating-point geometry throughout.
- The path-tracing step itself (following a ray through bounces and gathering
  radiance): it is floating-point work over the camera, light and reflection
  models, which this crate does not carry.
- Importance sampling of subsurface scattering: floating-point sampling only.
- The glinty (normal-distribution) conductor and plastic materials: they are no
  longer supported and need the texture machinery; loading a block of either kind
  reports that the caller has to build it, and the driver in `app/` refuses it.
