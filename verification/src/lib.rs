//! A session layer for a cellular-automaton viewer: it decodes a run-length
//! pattern description into a padded grid, advances the simulation one
//! generation at a time, and renders live cells into an RGBA pixel buffer
//! for a drawing surface.
pub mod engine;
pub mod laws;
pub mod rle;
pub mod session;
