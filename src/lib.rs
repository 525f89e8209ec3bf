//! Reading of lump archives (the container format of a classic first-person shooter), decoding
//! of the map geometry they hold, and depth-ordered walks of a map's binary space partition tree.
pub mod archive;
pub mod bsp;
pub mod bytes;
pub mod error;
pub mod records;

pub use archive::{read_directory, Directory, Header, MapData, WAD};
pub use bsp::{Viewpoint, BSP};
pub use error::{ErrorKind, WadError};
pub use records::{
    calc_map_bounds, decode_records, BlockMap, LineDef, LineDefFlags, MapBounds, MapLumpIndex,
    Node, Record, Reject, Sector, Seg, SideDef, SubSector, Thing, Vertex,
};
