//! Data structures used by 64-bit mode.
pub mod task;
pub mod vmx;
