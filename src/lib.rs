//! Exact collision geometry for a rigid-body simulation, on fixed-point integer
//! coordinates: hulls and their support points, a GJK overlap test with an iteration
//! cap, and contact generation against the ground plane.

pub mod contact;
pub mod gjk;
pub mod hull;
pub mod vector;
pub mod world;
