use vstd::prelude::*;

verus! {

/// Why a network could not be built from its definition tables.
#[derive(Clone, Copy, Debug, PartialEq, Eq, Structural)]
pub enum BuildError {
    /// There is no segment record at all.
    EmptySegmentList,
    /// A segment record is too short for its kind, or is numbered with the
    /// empty-slot sentinel.
    MalformedSegment,
    /// The areas of a wire's segments add up to more than 64 bits hold.
    AreaOverflow,
    /// The wires outnumber the rows of the channel table.
    TooManyNodes,
    /// The wires do not reach up to the highest pinned wire number.
    TooFewNodes,
    /// The transistors outnumber what sixteen bits can index.
    TooManyTransistors,
    /// A transistor names a wire that does not exist.
    DanglingTransistor,
    /// More channel ends touch one wire than its row of the channel table holds.
    TooManyChannels,
    /// A latch table is too short, or names a wire that does not exist.
    BadLatchTable,
    /// A text table does not follow its format.
    MalformedTable,
}

/// Why an operation on a running simulation was refused.
#[derive(Clone, Copy, Debug, PartialEq, Eq, Structural)]
pub enum SimError {
    /// A relaxation did not settle within the allowed passes; the
    /// simulation stays unusable until it is powered on again.
    Diverged,
    /// The cartridge needs a mapper other than the fixed-bank one.
    UnsupportedMapper,
    /// The cartridge asks for a mirroring that is not wired.
    UnsupportedMirroring,
    /// A memory block has not the size of the memory it is meant for.
    BadBlockSize,
    /// The memory cannot be loaded as a block.
    UnsupportedMemory,
}

} // verus!
