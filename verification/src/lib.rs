//! A Wavefront OBJ parser with a verified core.
//!
//! The library turns the lines of an OBJ file, given as byte strings, into a
//! model holding vertex positions, texture coordinates, normals and
//! triangular faces. Coordinates are kept as their validated numeric-literal
//! text; face indices are parsed to integers and stored exactly as written,
//! with no base adjustment.
pub mod geom;
pub mod lexing;
pub mod numeric;
pub mod parser;
