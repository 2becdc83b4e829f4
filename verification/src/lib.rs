//! A Uniscribe OpenType shaping tracer: the verified logic.

pub mod text;
pub mod features;
pub mod sfnt;
pub mod uniscribe;
pub mod probe;
pub mod hookcode;
pub mod shape;
pub mod pe;
pub mod sigscan;
pub mod cli;
pub mod probeplan;
