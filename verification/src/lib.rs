//! Batch query layer over a hierarchical sky pixelization engine.
//!
//! The engine itself (coordinate hashing, neighbour lookup, region coverage)
//! is an external collaborator reached through a small set of trusted
//! wrappers; everything this crate adds on top of those single-cell calls is
//! verified:
//!
//! * `pix` — pixel-index arithmetic: cell counts per depth and the
//!   depth-from-length computation;
//! * `cover` — the coverage-result model: validated cell sets and their
//!   hierarchical and flattened materializations;
//! * `engine` — the trusted declarations of the engine calls;
//! * `batch` — the parallel batch dispatcher and the fixed-width
//!   neighbour/corner layouts with their sentinel encoding;
//! * `skymap` — the type-erased value-store codec and its byte format;
//! * `buffer` — the ownership-transfer registry for engine-allocated
//!   buffers.

pub mod batch;
pub mod buffer;
pub mod cover;
pub mod engine;
pub mod pix;
pub mod skymap;
