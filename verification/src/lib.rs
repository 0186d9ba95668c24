//! Creation of SCO BFS (Boot File System) images.
//!
//! BFS is a flat filesystem (no subdirectories, no indirect blocks): each
//! file occupies a contiguous run of 512-byte blocks. An image is built in
//! memory with [`Bfs`]: files are added one by one to the root directory,
//! then the image is finished and its bytes handed over.
pub mod dirent;
pub mod encoding;
pub mod error;
pub mod image;
pub mod inode;
pub mod laws;
pub mod layout;

pub use error::BfsError;
pub use image::{Bfs, Stats};
