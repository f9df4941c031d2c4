//! A vector-tile globe pipeline: decoding delta/zigzag-encoded geometry
//! command streams, assembling point rings, building per-tile polylines in
//! tile-pixel space, laying out line extrusion buffers, and scheduling tile
//! fetches through a coordinate-keyed cache.
//!
//! Floating-point work (Web-Mercator inversion, sphere projection, vertex
//! buffer fill) and transport (HTTP, gzip, protobuf) live outside this
//! library; it hands them plain values and exact layouts.

pub mod data;
pub mod extrude;
pub mod globe;
pub mod polyline;
pub mod tile;

pub use data::WebTileSource;
pub use extrude::{extrude, LineMeshLayout, SegmentRef, MAX_SEGMENTS};
pub use globe::{grid_coords, FetchError, Globe, TileCoord};

pub use polyline::{
    zigzag_decode, zigzag_encode, Command, DecodeError, GeometryParser, PixelPoint, Polyline,
    Ring, RingAssembler, MIN_RING_POINTS,
};
pub use tile::{Feature, Layer, Tile, VectorTile, DEFAULT_EXTENT};
