pub mod filesystem;
pub mod s3;
pub mod memory;
