//! Decoder for voxel models stored in the chunk-based `.vox` container:
//! a volume size, one voxel list per voxel-data chunk, and a 256-entry
//! RGBA palette.

mod descent;
pub mod endian;
pub mod error;
pub mod format;
pub mod laws;
pub mod palette;
pub mod vox_loader;

pub use error::DecodeError;
pub use vox_loader::{Chunk, Size, VoxLoader, Voxel};
