//! Turns a compact description of a building's rooms (each room a closed,
//! cyclic chain of axis-aligned thick walls) into absolute wall geometry in one
//! shared frame, gluing rooms together at declared wall connections.
//!
//! All lengths, thicknesses and coordinates are integers in one unit that the
//! caller chooses; a corner is mitred by half a wall's thickness, rounded down,
//! so a unit in which every thickness is even keeps each corner exact.

pub mod input_desc;
pub mod output_desc;
pub mod builder;
pub mod connection;
pub mod laws;

pub use builder::{build, BuildError};
