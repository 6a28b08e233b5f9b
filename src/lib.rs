//! Verified audit and curation engine for a music-streaming library: track
//! classification, scan accumulation, bulk-mutation batching, ISRC-based
//! duplicate resolution and the decisions of a playlist-to-liked sync.

pub mod models;
pub mod text;
pub mod audit;
pub mod batch;
pub mod sync;
pub mod dedup;

pub use audit::{AuditError, analyze_track, scan_playlist_items, scan_tracks};
pub use models::{AuditSummary, PlaylistItem, ProblematicTrack, Track};
