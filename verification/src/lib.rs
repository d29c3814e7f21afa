//! Partition specifications for disk images and block devices: the grammar of
//! size and offset strings, the reading of a colon-separated partition
//! request, the resolution of offsets against a device's capacity, and the
//! order of steps in which a partition table is rebuilt.

pub mod device;
pub mod image;
pub mod partitions;
pub mod registry;
pub mod rewrite;
pub mod text;
pub mod trace;
pub mod util;
