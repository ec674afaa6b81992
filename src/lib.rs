//! Columnar geometry arrays: flat coordinate buffers, nested offset buffers,
//! chunked collections and a corner-cutting smoothing transform over them.
pub mod array;
pub mod chaikin;
pub mod chunked;
pub mod coords;
pub mod error;
pub mod geometry;
pub mod laws;
pub mod offsets;

pub use array::{
    linestrings, multilinestrings, multipoints, multipolygons, points, polygons, ArrayMetadata,
    GeometryArray, GeometryKind,
};
pub use chaikin::{chaikin_array, chaikin_chunked, chaikin_smoothing, GeometryInput};
pub use chunked::ChunkedGeometryArray;
pub use coords::{Coord, CoordBuffer, Dimension};
pub use error::GeoError;
pub use geometry::Geometry;
pub use offsets::OffsetBuffer;
