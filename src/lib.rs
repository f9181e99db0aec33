//! Distance-field textures: for every pixel of a grid, the distance to the
//! nearest (or k-th nearest) of a fixed set of points, mapped to an 8-bit
//! alpha channel and laid out as a row-major RGBA byte buffer.
pub mod point;
pub mod remap;
pub mod select;
pub mod field;
pub mod laws;
