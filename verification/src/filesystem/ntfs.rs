//! NTFS: boot sector, MFT records, attributes, run lists and path
//! reconstruction.

pub mod attribute;
pub mod boot;
pub mod mft;
pub mod path;
pub mod runlist;
pub mod volume;

pub use volume::guess_kind;
