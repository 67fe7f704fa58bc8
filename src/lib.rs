//! Analysis of droplet density maps sampled on a uniform 2D grid: the grid
//! geometry and binary record format, neighbour lists for smoothing,
//! percentile selection for the radius estimate, the contact line search
//! state machine and the bracketing used when resampling curves.
//!
//! Real numbers are carried as the bit patterns of IEEE-754 doubles (`u64`)
//! wherever the library only stores, moves or orders them.
use vstd::prelude::*;

pub mod densmap;
pub mod average;
pub mod radial_density;
pub mod sample_interface;
pub mod graphdata;
