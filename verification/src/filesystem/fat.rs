//! FAT32: boot sector, FAT table entries and directory entries.

pub mod bpb;
pub mod dir;
pub mod table;
pub mod volume;
