//! Writer and reader of Memory-Mapped Value (MMV) files: the binary
//! telemetry format that a Performance Co-Pilot agent samples.
use vstd::prelude::*;

pub mod bytes;
pub mod codec;
pub mod conf;
pub mod emit;
pub mod error;
pub mod export;
pub mod ident;
pub mod layout;
pub mod metric;
pub mod mmv;
pub mod render;
pub mod unit;
pub mod writer;

verus! {

} // verus!
