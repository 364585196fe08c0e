//! Split a large file into an ordered run of fixed-size byte chunks and later
//! reassemble a byte-identical copy, guided by a small persisted descriptor.
//!
//! The library holds the verified core: the chunk plan (boundary arithmetic),
//! the descriptor record and its on-disk text form, the splitter and the
//! joiner, each working on in-memory bytes. All file reading and writing, the
//! command line and the progress display live in the surrounding binary, which
//! hands the library plain values and carries out the plans it returns.

pub mod deconstructor;
pub mod descriptor;
pub mod glue;
pub mod metadata;
pub mod naming;
pub mod plan;
