//! Core of a small operating-system kernel, modelled as ordinary data so that
//! its logic can be verified: a dense bitmap with a "find consecutive zeros"
//! scan, the physical-frame allocator built on it, the page-table hierarchy
//! with its recursive-mapping address arithmetic, the virtual-memory
//! allocator that ties frames to pages, the cooperative scheduler's run
//! queue, and the descriptor-table and bootstrap encodings.

pub mod bitmap;
pub mod boot;
pub mod desc;
pub mod pg;
pub mod pm;
pub mod sched;
pub mod vm;
