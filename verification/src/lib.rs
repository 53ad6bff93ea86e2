//! flakesim: snow-crystal growth on a hexagonal lattice.
//!
//! The library holds the discrete side of the simulator: the lattice and its
//! symmetries, the layered vapour grid, the rules by which boundary sites join
//! the crystal, the outlines and images that show it, and the history that
//! drives it.  Quantities that the growth physics computes in floating point
//! enter as plain integers (see [`number`]).

pub mod automaton;
pub mod canvas;
pub mod coarse;
pub mod config;
pub mod curvature;
pub mod diagram;
pub mod draw;
pub mod encode;
pub mod growth;
pub mod hex;
pub mod history;
pub mod iso;
pub mod lattice;
pub mod layers;
pub mod number;
pub mod order;
pub mod outline;
pub mod physics;
pub mod piece;
pub mod raster;
pub mod relax;
pub mod rim;
pub mod schedule;
pub mod session;
pub mod sites;
pub mod snapshot;
pub mod stencil;
pub mod svg;
pub mod symmetry;
pub mod text;
