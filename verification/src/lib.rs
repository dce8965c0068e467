//! Verified core of a 3D Tiles streaming service: binary container formats
//! (GLB, 3TZ archive indexes), block-cached range reads, glTF constants,
//! reading documents into a scene model, combining primitives and writing
//! them back, and the tile/URI arithmetic used to synthesize tilesets.
pub mod bytes_le;
pub mod glb;
pub mod text;
pub mod gltf_constants;
pub mod semantic;
pub mod gltf_types;
pub mod archive_index;
pub mod tz_locator;
pub mod range_read;
pub mod attribute;
pub mod cell;
pub mod tiles;
pub mod terrarium;
pub mod uri;
pub mod handlers;
pub mod model_io;
pub mod scene;
pub mod combiner;
pub mod writer;
pub mod traversal;

