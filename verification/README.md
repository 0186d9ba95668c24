# mkfs_bfs

Creates SCO BFS (Boot File System) images, the flat filesystem SCO UNIX used
to hold standalone boot programs; Linux reads it with its `bfs` module.

- `src/` is the library, verified with Verus: the image is built in memory
  (`Bfs::new`, `Bfs::add_file`, `Bfs::write_to`) and every operation is
  specified over an abstract model (`image::BfsModel`). `src/laws.rs` proves
  what a finished image holds: the superblock, the inode table, the root
  directory, and the data of every file added.
- `app/` is the `mkfs.bfs` command: argument parsing, walking the source
  directory, reading files and writing the image file.

Limits: up to 503 files besides "." and ".."; names of 14 bytes (longer ones
are truncated); each file is one contiguous run of 512-byte blocks.
