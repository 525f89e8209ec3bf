//! The ways in which reading an archive or walking a map can fail.
use vstd::prelude::*;

verus! {

/// The class of a failure.
#[derive(Clone, Copy, Debug, PartialEq, Eq, Structural)]
pub enum ErrorKind {
    /// A read ran past the end of the archive.
    Io,
    /// The archive's contents break the format.
    Format,
    /// The operation needs a loaded map and none is.
    State,
}

#[derive(Clone, Copy, Debug, PartialEq, Eq, Structural)]
pub enum WadError {
    /// A header, directory or lump reaches past the end of the archive.
    ShortRead,
    /// The header's identification is neither `IWAD` nor `PWAD`.
    UnknownTag,
    /// A directory index past the end of the directory.
    LumpIndexOutOfRange,
    /// A lump whose byte size is not a whole number of its records.
    BadLumpSize,
    /// A node reference past the end of the node array.
    NodeOutOfRange,
    /// A subsector reference past the end of the subsector array.
    SubSectorOutOfRange,
    /// A subsector whose segs reach past the end of the seg array.
    SegOutOfRange,
    /// A walk of the partition tree visited more nodes than the map has: the tree has a cycle.
    BudgetExceeded,
    /// No map has been loaded yet.
    NoMapLoaded,
}

impl WadError {
    pub open spec fn spec_kind(self) -> ErrorKind {
        match self {
            WadError::ShortRead => ErrorKind::Io,
            WadError::NoMapLoaded => ErrorKind::State,
            _ => ErrorKind::Format,
        }
    }

    pub fn kind(&self) -> (r: ErrorKind)
        ensures
            r == self.spec_kind(),
    {
        match self {
            WadError::ShortRead => ErrorKind::Io,
            WadError::NoMapLoaded => ErrorKind::State,
            _ => ErrorKind::Format,
        }
    }
}

} // verus!
