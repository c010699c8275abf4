# craytracer

A physically based ray tracer. Scenes are described in a small text format
(maps, typed maps, arrays, numbers, strings, vectors, points and colors) and
rendered tile by tile on all cores, with an optional live preview window.

The library (`src/`) is written in Verus and holds the parts whose behaviour
can be stated exactly:

- `scene_parser`: the tokenizer, the parser of raw values, and the reading of
  a whole scene description (cameras, lights, materials, shapes, primitives),
  with every error message and location specified, and the report of the
  keys of typed maps that reading a scene never asks for;
- `tiles` and `render`: splitting the image into tiles and work items, the
  checkerboard that the preview starts from, pixel packing and mouse clicks;
- `sampling`: the bookkeeping of the uniform and Sobol samplers;
- `obj`: grouping mesh indices into triangles and classifying OBJ materials;
- `util`: partitioning a slice by a predicate.

The program (`app/`) reads files, builds the floating-point geometry,
materials and lights from a scene description, traces paths, shows the
preview and writes the image.
