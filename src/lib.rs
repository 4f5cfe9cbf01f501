//! A flock of point agents on a toroidal plane, with fixed-point arithmetic
//! throughout so that every step of the simulation is exact and verified.
pub mod vector;
pub mod agent;
pub mod flock;
