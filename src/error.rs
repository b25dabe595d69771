//! Errors of declaring metrics.
use vstd::prelude::*;

verus! {

/// Why a declaration was refused; each carries the offending value.
#[derive(PartialEq, Eq, Structural, Clone, Copy, Debug)]
pub enum Error {
    /// A unit dimension outside [-8, 7].
    DimensionOutOfRange(i8),
    /// A metric name of this many bytes, over 63.
    NameTooLong(u64),
    /// A help text of this many bytes, over 255.
    HelpTooLong(u64),
    /// An instance name of this many bytes, over 63.
    InstanceTooLong(u64),
    /// A value whose type code differs from the metric's.
    TypeMismatch(u32),
}

} // verus!
