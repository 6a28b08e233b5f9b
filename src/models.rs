//! The library's data: tracks as fetched, and the reports built from them.
use vstd::prelude::*;
use vstd::string::StringExecFns;
use crate::text::{decimal_text, usize_text};

verus! {

/// One track as the catalog describes it. `id` is absent for local uploads.
/// `external_ids` and `external_urls` are association lists (scheme, value).
#[derive(Debug, Clone)]
pub struct Track {
    pub id: Option<String>,
    pub name: String,
    pub artists: Vec<String>,
    pub album: String,
    pub is_playable: Option<bool>,
    pub available_markets: Vec<String>,
    pub external_ids: Vec<(String, String)>,
    pub external_urls: Vec<(String, String)>,
    pub popularity: u32,
    pub release_date: String,
    pub duration_ms: u32,
    pub disc_number: i32,
    pub track_number: u32,
    pub is_local: bool,
}

/// One entry of a playlist: a track, or anything else (an episode, a removed placeholder).
#[derive(Debug, Clone)]
pub enum PlaylistItem {
    Track(Track),
    Other,
}

/// A track found to be unplayable.
#[derive(Debug, Clone)]
pub struct ProblematicTrack {
    pub id: String,
    pub name: String,
    pub artists: String,
    pub album: String,
    pub reason: String,
    pub external_url: String,
    pub available_markets_count: usize,
}

/// Summary of a library scan.
#[derive(Debug)]
pub struct AuditSummary {
    pub total_tracks_scanned: u32,
    pub problematic_tracks: Vec<ProblematicTrack>,
}

/// Log entry of one mutation batch of a sync.
#[derive(Debug, Clone)]
pub struct SyncBatchLog {
    pub batch_index: usize,
    pub tracks_count: usize,
    pub track_ids: Vec<String>,
    pub status: String,
}

/// Report of a playlist-to-liked sync.
#[derive(Debug)]
pub struct SyncReport {
    pub initial_liked_count: u32,
    pub final_liked_count: u32,
    pub total_tracks_in_playlist: u32,
    pub tracks_processed: u32,
    pub estimated_added: u32,
    pub batch_logs: Vec<SyncBatchLog>,
}

/// Summary of a playlist for listing purposes.
#[derive(Debug)]
pub struct PlaylistSummary {
    pub id: String,
    pub name: String,
    pub total_tracks: u32,
    pub is_public: bool,
    pub is_collaborative: bool,
    pub owner_name: String,
}

/// Detailed forensic information about a single track.
#[derive(Debug)]
pub struct TrackInspection {
    pub id: String,
    pub name: String,
    pub artists: Vec<String>,
    pub album: String,
    pub release_date: String,
    pub duration_ms: u32,
    pub popularity: u32,
    pub is_playable: Option<bool>,
    pub available_markets: Vec<String>,
    pub external_ids: Vec<(String, String)>,
    pub external_urls: Vec<(String, String)>,
    pub disc_number: i32,
    pub track_number: u32,
    pub is_local: bool,
}

/// Status shown for a flagged track: removed everywhere, or still licensed somewhere.
pub open spec fn status_text(markets: nat) -> Seq<char> {
    if markets == 0 {
        "🔴 REMOVED GLOBALLY"@
    } else {
        "🌍 GEO-LOCKED (Available in "@ + decimal_text(markets) + " markets)"@
    }
}

/// `[id] name - artists (Album: album) -> reason | status`
pub open spec fn display_text(p: ProblematicTrack) -> Seq<char> {
    "["@ + p.id@ + "] "@ + p.name@ + " - "@ + p.artists@ + " (Album: "@ + p.album@ + ") -> "@
        + p.reason@ + " | "@ + status_text(p.available_markets_count as nat)
}

impl ProblematicTrack {
    /// The one-line human-readable form of the report.
    pub fn to_display_string(&self) -> (r: String)
        ensures
            r@ == display_text(*self),
    {
        let mut s = String::from_str("[");
        s.append(self.id.as_str());
        s.append("] ");
        s.append(self.name.as_str());
        s.append(" - ");
        s.append(self.artists.as_str());
        s.append(" (Album: ");
        s.append(self.album.as_str());
        s.append(") -> ");
        s.append(self.reason.as_str());
        s.append(" | ");
        if self.available_markets_count == 0 {
            s.append("🔴 REMOVED GLOBALLY");
        } else {
            s.append("🌍 GEO-LOCKED (Available in ");
            let n = usize_text(self.available_markets_count);
            s.append(n.as_str());
            s.append(" markets)");
        }
        assert(s@ =~= display_text(*self));
        s
    }
}

impl PlaylistSummary {
    /// Summarises a playlist. The owner is shown by display name, or by raw
    /// identifier when there is none; an unknown visibility counts as private.
    pub fn from_listing(
        id: String,
        name: String,
        total_tracks: u32,
        public: Option<bool>,
        is_collaborative: bool,
        owner_display_name: Option<String>,
        owner_id: String,
    ) -> (r: PlaylistSummary)
        ensures
            r.id == id,
            r.name == name,
            r.total_tracks == total_tracks,
            r.is_public == (public == Some(true)),
            r.is_collaborative == is_collaborative,
            r.owner_name == (match owner_display_name {
                Some(d) => d,
                None => owner_id,
            }),
    {
        let owner_name = match owner_display_name {
            Some(d) => d,
            None => owner_id,
        };
        let is_public = match public {
            Some(b) => b,
            None => false,
        };
        PlaylistSummary { id, name, total_tracks, is_public, is_collaborative, owner_name }
    }
}

impl TrackInspection {
    /// The full projection of one track; a track without identifier shows an empty one.
    pub fn from_track(track: Track) -> (r: TrackInspection)
        ensures
            r.id@ == (match track.id {
                Some(i) => i@,
                None => Seq::<char>::empty(),
            }),
            r.name == track.name,
            r.artists == track.artists,
            r.album == track.album,
            r.release_date == track.release_date,
            r.duration_ms == track.duration_ms,
            r.popularity == track.popularity,
            r.is_playable == track.is_playable,
            r.available_markets == track.available_markets,
            r.external_ids == track.external_ids,
            r.external_urls == track.external_urls,
            r.disc_number == track.disc_number,
            r.track_number == track.track_number,
            r.is_local == track.is_local,
    {
        let id = match track.id {
            Some(i) => i,
            None => String::new(),
        };
        TrackInspection {
            id,
            name: track.name,
            artists: track.artists,
            album: track.album,
            release_date: track.release_date,
            duration_ms: track.duration_ms,
            popularity: track.popularity,
            is_playable: track.is_playable,
            available_markets: track.available_markets,
            external_ids: track.external_ids,
            external_urls: track.external_urls,
            disc_number: track.disc_number,
            track_number: track.track_number,
            is_local: track.is_local,
        }
    }
}

impl AuditSummary {
    /// An empty summary: nothing scanned, nothing flagged.
    pub fn new() -> (r: AuditSummary)
        ensures
            r.total_tracks_scanned == 0,
            r.problematic_tracks@.len() == 0,
    {
        AuditSummary { total_tracks_scanned: 0, problematic_tracks: Vec::new() }
    }

    /// Appends a flagged track; the scanned count is left as it is.
    pub fn add_problem(&mut self, track: ProblematicTrack)
        ensures
            final(self).total_tracks_scanned == old(self).total_tracks_scanned,
            final(self).problematic_tracks@ == old(self).problematic_tracks@.push(track),
    {
        self.problematic_tracks.push(track);
    }
}

} // verus!
