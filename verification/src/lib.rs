//! Planar-geometry primitives over exact integer coordinates: point
//! distance, polygon area, point-in-polygon containment, and polygon
//! buffering. Coordinates are fixed-point integers supplied by the caller
//! (a host adapter scales real-valued coordinates before calling in), so
//! every operation here is exact integer arithmetic with a proved contract.

pub mod area;
pub mod arith;
pub mod buffer;
pub mod containment;
pub mod distance;
pub mod geometry;
