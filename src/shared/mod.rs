//! Data structures shared between 32-bit and 64-bit mode.
pub mod dtables;
