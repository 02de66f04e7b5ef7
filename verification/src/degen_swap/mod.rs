//! Degen tokens: tokens priced by an oracle, and the oracles' settings.
pub mod degen;
