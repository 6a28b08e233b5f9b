//! Classifying tracks, accumulating scan summaries, and validating the
//! identifiers that callers hand in.
use vstd::prelude::*;
use vstd::string::StringExecFns;
use crate::models::{AuditSummary, PlaylistItem, ProblematicTrack, Track};
use crate::text::{join_texts, joined, lookup, lookup_value, texts};

verus! {

/// Identifiers refused before any catalog call is made.
#[derive(Debug)]
pub enum AuditError {
    /// A playlist identifier that does not have the catalog's shape.
    InvalidId(String),
    /// A track identifier that does not have the catalog's shape.
    InvalidTrackId(String),
}

/// A track is flagged only when the catalog says explicitly that it cannot be played.
pub open spec fn is_flagged(t: Track) -> bool {
    t.is_playable == Some(false)
}

pub open spec fn unplayable_reason() -> Seq<char> {
    "Track marked as unplayable by Spotify"@
}

pub open spec fn id_text(t: Track) -> Seq<char> {
    match t.id {
        Some(s) => s@,
        None => "unknown"@,
    }
}

pub open spec fn primary_url(t: Track) -> Seq<char> {
    match lookup(t.external_urls@, "spotify"@) {
        Some(u) => u,
        None => Seq::empty(),
    }
}

/// `p` is the report on `t` with the given reason.
pub open spec fn is_report_of(p: ProblematicTrack, t: Track, reason: Seq<char>) -> bool {
    &&& p.id@ == id_text(t)
    &&& p.name@ == t.name@
    &&& p.artists@ == joined(texts(t.artists@), ", "@)
    &&& p.album@ == t.album@
    &&& p.reason@ == reason
    &&& p.external_url@ == primary_url(t)
    &&& p.available_markets_count == t.available_markets@.len()
}

/// Each report is the unplayable-report on the track at the same position.
pub open spec fn reports_of(ps: Seq<ProblematicTrack>, ts: Seq<Track>) -> bool {
    &&& ps.len() == ts.len()
    &&& forall|k: int| 0 <= k < ps.len() ==> is_report_of(#[trigger] ps[k], ts[k], unplayable_reason())
}

/// The flagged tracks, in order.
pub open spec fn flagged(ts: Seq<Track>) -> Seq<Track>
    decreases ts.len(),
{
    if ts.len() == 0 {
        Seq::empty()
    } else if is_flagged(ts.last()) {
        flagged(ts.drop_last()).push(ts.last())
    } else {
        flagged(ts.drop_last())
    }
}

/// The tracks among playlist items, in order.
pub open spec fn tracks_of(items: Seq<PlaylistItem>) -> Seq<Track>
    decreases items.len(),
{
    if items.len() == 0 {
        Seq::empty()
    } else {
        match items.last() {
            PlaylistItem::Track(t) => tracks_of(items.drop_last()).push(t),
            PlaylistItem::Other => tracks_of(items.drop_last()),
        }
    }
}

/// Builds the report on one track with the given reason.
pub fn create_problem_report(track: &Track, reason: &str) -> (r: ProblematicTrack)
    ensures
        is_report_of(r, *track, reason@),
{
    let artists = join_texts(&track.artists, ", ");
    let url_key = String::from_str("spotify");
    let external_url = match lookup_value(&track.external_urls, &url_key) {
        Some(u) => u,
        None => String::new(),
    };
    let id = match &track.id {
        Some(i) => i.clone(),
        None => String::from_str("unknown"),
    };
    ProblematicTrack {
        id,
        name: track.name.clone(),
        artists,
        album: track.album.clone(),
        reason: String::from_str(reason),
        external_url,
        available_markets_count: track.available_markets.len(),
    }
}

/// Classifies one track: a report when it is known to be unplayable, none
/// when it is playable or nothing is known.
pub fn analyze_track(track: &Track) -> (r: Option<ProblematicTrack>)
    ensures
        r.is_some() == is_flagged(*track),
        r matches Some(p) ==> is_report_of(p, *track, unplayable_reason()),
{
    let is_playable = match track.is_playable {
        Some(b) => b,
        None => true,
    };
    if !is_playable {
        return Some(create_problem_report(track, "Track marked as unplayable by Spotify"));
    }
    None
}

impl AuditSummary {
    /// Counts one scanned track and appends its report when it is flagged.
    pub fn record_track(&mut self, track: &Track)
        requires
            old(self).total_tracks_scanned < u32::MAX,
        ensures
            final(self).total_tracks_scanned == old(self).total_tracks_scanned + 1,
            is_flagged(*track) ==> {
                &&& final(self).problematic_tracks@.len() == old(self).problematic_tracks@.len() + 1
                &&& final(self).problematic_tracks@.drop_last() == old(self).problematic_tracks@
                &&& is_report_of(final(self).problematic_tracks@.last(), *track, unplayable_reason())
            },
            !is_flagged(*track) ==> final(self).problematic_tracks@ == old(self).problematic_tracks@,
    {
        self.total_tracks_scanned = self.total_tracks_scanned + 1;
        if let Some(problem) = analyze_track(track) {
            self.add_problem(problem);
            assert(self.problematic_tracks@.drop_last() =~= old(self).problematic_tracks@);
        }
    }
}

/// Scans a sequence of tracks: every one is counted, the flagged ones are
/// reported in order.
pub fn scan_tracks(tracks: &Vec<Track>) -> (r: AuditSummary)
    requires
        tracks@.len() <= u32::MAX,
    ensures
        r.total_tracks_scanned == tracks@.len(),
        reports_of(r.problematic_tracks@, flagged(tracks@)),
{
    let mut summary = AuditSummary::new();
    let mut i: usize = 0;
    while i < tracks.len()
        invariant
            i <= tracks@.len() <= u32::MAX,
            summary.total_tracks_scanned == i,
            reports_of(summary.problematic_tracks@, flagged(tracks@.subrange(0, i as int))),
        decreases tracks.len() - i,
    {
        let ghost before = summary.problematic_tracks@;
        summary.record_track(&tracks[i]);
        let ghost pre = tracks@.subrange(0, i as int);
        let ghost next = tracks@.subrange(0, i + 1);
        assert(next.drop_last() =~= pre);
        assert(next.last() == tracks@[i as int]);
        proof {
            if is_flagged(tracks@[i as int]) {
                assert(summary.problematic_tracks@ =~= before.push(summary.problematic_tracks@.last()));
            }
        }
        i = i + 1;
    }
    assert(tracks@.subrange(0, tracks@.len() as int) =~= tracks@);
    summary
}

/// Scans the items of a playlist: only tracks are counted and classified;
/// other items are skipped.
pub fn scan_playlist_items(items: &Vec<PlaylistItem>) -> (r: AuditSummary)
    requires
        items@.len() <= u32::MAX,
    ensures
        r.total_tracks_scanned == tracks_of(items@).len(),
        reports_of(r.problematic_tracks@, flagged(tracks_of(items@))),
{
    let mut summary = AuditSummary::new();
    let mut i: usize = 0;
    while i < items.len()
        invariant
            i <= items@.len() <= u32::MAX,
            summary.total_tracks_scanned == tracks_of(items@.subrange(0, i as int)).len(),
            tracks_of(items@.subrange(0, i as int)).len() <= i,
            reports_of(summary.problematic_tracks@, flagged(tracks_of(items@.subrange(0, i as int)))),
        decreases items.len() - i,
    {
        let ghost before = summary.problematic_tracks@;
        let ghost pre = items@.subrange(0, i as int);
        let ghost next = items@.subrange(0, i + 1);
        assert(next.drop_last() =~= pre);
        assert(next.last() == items@[i as int]);
        match &items[i] {
            PlaylistItem::Track(t) => {
                summary.record_track(t);
                let ghost tn = tracks_of(next);
                assert(tn.drop_last() =~= tracks_of(pre));
                proof {
                    if is_flagged(*t) {
                        assert(summary.problematic_tracks@ =~= before.push(summary.problematic_tracks@.last()));
                    }
                }
            },
            PlaylistItem::Other => {},
        }
        i = i + 1;
    }
    assert(items@.subrange(0, items@.len() as int) =~= items@);
    summary
}

pub open spec fn is_id_char(c: char) -> bool {
    ('0' <= c && c <= '9') || ('a' <= c && c <= 'z') || ('A' <= c && c <= 'Z')
}

/// The catalog's identifier shape: ASCII letters and digits only.
pub open spec fn is_catalog_id(s: Seq<char>) -> bool {
    forall|i: int| 0 <= i < s.len() ==> is_id_char(#[trigger] s[i])
}

/// Relies on rspotify's `PlaylistId::from_id`: it accepts exactly the strings
/// whose characters are all ASCII alphanumeric.
#[verifier::external_body]
fn playlist_id_accepted(s: &str) -> (r: bool)
    ensures
        r == is_catalog_id(s@),
{
    rspotify::model::PlaylistId::from_id(s).is_ok()
}

/// Relies on rspotify's `TrackId::from_id`: it accepts exactly the strings
/// whose characters are all ASCII alphanumeric.
#[verifier::external_body]
fn track_id_accepted(s: &str) -> (r: bool)
    ensures
        r == is_catalog_id(s@),
{
    rspotify::model::TrackId::from_id(s).is_ok()
}

/// Validates a caller-supplied playlist identifier.
pub fn parse_playlist_id(s: &str) -> (r: Result<String, AuditError>)
    ensures
        is_catalog_id(s@) <==> r.is_ok(),
        r matches Ok(v) ==> v@ == s@,
        r matches Err(e) ==> (e matches AuditError::InvalidId(t) && t@ == s@),
{
    if playlist_id_accepted(s) {
        Ok(String::from_str(s))
    } else {
        Err(AuditError::InvalidId(String::from_str(s)))
    }
}

/// Validates a caller-supplied track identifier.
pub fn parse_track_id(s: &str) -> (r: Result<String, AuditError>)
    ensures
        is_catalog_id(s@) <==> r.is_ok(),
        r matches Ok(v) ==> v@ == s@,
        r matches Err(e) ==> (e matches AuditError::InvalidTrackId(t) && t@ == s@),
{
    if track_id_accepted(s) {
        Ok(String::from_str(s))
    } else {
        Err(AuditError::InvalidTrackId(String::from_str(s)))
    }
}

} // verus!
