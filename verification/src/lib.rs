//! A buffer pool manager: a fixed number of in-memory frames that cache the
//! pages of a heap file, a page table that finds a cached page in constant
//! time, and clock-sweep replacement that never reuses a frame a caller still
//! holds.
//!
//! The crate performs no I/O. [`disk_manager::DiskManager`] numbers pages and
//! places them in the heap file; [`manager::BufferPoolManager`] tells its
//! caller which page to write or read next and is told how that went.

pub mod buffer;
pub mod disk_manager;
pub mod laws;
pub mod manager;
pub mod page_table;
pub mod pool;
pub mod sweep;
