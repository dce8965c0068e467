# porter

A 3D Tiles streaming service. The library (`src/`) holds the logic, written
in Verus with its contracts proved; the service (`app/`) reads files,
decodes and encodes images, does the floating-point geometry, and serves
HTTP.

## Library modules

- `bytes_le`, `text`: little-endian bytes and text helpers used throughout.
- `glb`, `model_io`: the binary glTF container, read and written, and
  telling GLB from JSON glTF.
- `gltf_constants`, `semantic`, `gltf_types`: glTF enumerations, attribute
  semantics, and the document records that hold no floats, with their
  defaults and schema checks.
- `attribute`, `scene`: reading accessors into packed attributes and
  documents into a scene model; primitive builders and index promotion.
- `traversal`, `combiner`, `writer`: walking a scene's nodes depth first;
  merging primitives that share a layout, material and mode, and numbering
  materials in the order they are met; writing
  attributes, images, samplers, textures, primitives and meshes back into
  document records and one binary buffer.
- `archive_index`, `tz_locator`, `range_read`: 3TZ archive indexes, the
  reads that find them, and block-cached range reads.
- `cell`, `tiles`, `terrarium`, `handlers`, `uri`: S2 cell arithmetic,
  tileset synthesis, web-map raster planning and the decoding of source
  rasters (PNG and JPEG, through the `png` and `zune-jpeg` crates), request
  routing and URI rewriting.

## Layout

- `src/`: the verified library.
- `tests/`: tests of the library on concrete values.
- `app/`: the service binary around the library (reads, floating-point
  warping and encoding, HTTP); `app/combine.rs` builds
  the combined model of the models a GeoJSON tile references.
