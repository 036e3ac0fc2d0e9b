//! The logic of a real-time aquarium: texture processing and its cache,
//! procedural mesh topology, the decor's distance-field grid, command-line
//! configuration, capture runs and debug switches, and the decisions of the
//! power manager, the adaptive quality, the start-up curtain and the animals.
use vstd::prelude::*;

pub mod camera;
pub mod capture;
pub mod config;
pub mod glider;
pub mod crab;
pub mod food;
pub mod gait;
pub mod grid;
pub mod intro;
pub mod mesh;
pub mod power;
pub mod probe;
pub mod quality;
pub mod sand;
pub mod scan;
pub mod switches;
pub mod tags;
pub mod texture;

verus! {

} // verus!
