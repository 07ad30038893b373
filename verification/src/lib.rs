//! Reading the partition tables and QNX6 superblocks of raw disk images.
pub mod parser;
pub mod text;
