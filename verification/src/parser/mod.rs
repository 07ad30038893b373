pub mod partitions;
pub mod qnx6;
pub mod superblock;
pub mod preflight;
