//! Core engine of a Windows system-monitoring backend: freshness-gated
//! caches, raw-buffer decoding for OS telemetry tables, a process-hierarchy
//! builder, and filter/sort/pagination query semantics.

pub mod cache;
pub mod disks;
pub mod drivers;
pub mod fmt;
pub mod handles;
pub mod memory;
pub mod models;
pub mod net;
pub mod paging;
pub mod process;
pub mod programs;
pub mod screenshot;
pub mod sorting;
pub mod text;
pub mod tree;
pub mod widestr;
