//! Adaptive quality-targeting support for scene-based video encoding.
//!
//! The crate models the data and decisions of a quantizer-search workflow:
//! frame-pair scoring with a shared decode cursor, aggregation of unordered
//! per-frame quality scores, per-scene statistics, a quality-vs-quantizer
//! curve solver, and the scene-override records that carry the solved
//! quantizers back into a scene description.  Quality scores and quantizers
//! are carried as fixed-point integers in thousandths, so that every rule can
//! be stated and checked exactly.

pub mod num_util;
pub mod score_map;
pub mod engine;
pub mod stats;
pub mod scenes;
pub mod text;
pub mod search;
pub mod overrides;
pub mod scene_file;
pub mod outside;
pub mod probe;
pub mod color;
pub mod torrent;
