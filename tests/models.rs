use audit_core::models::{PlaylistSummary, TrackInspection};
use audit_core::{AuditSummary, ProblematicTrack, Track};

#[test]
fn test_problematic_track_display_global_removed() {
    let track = ProblematicTrack {
        id: "123".to_string(),
        name: "Ghost Track".to_string(),
        artists: "Unknown Artist".to_string(),
        album: "Lost Album".to_string(),
        reason: "Unplayable".to_string(),
        external_url: "http://...".to_string(),
        available_markets_count: 0,
    };

    let display = track.to_display_string();
    assert!(display.contains("🔴 REMOVED GLOBALLY"));
    assert!(display.contains("Ghost Track"));
}

#[test]
fn test_problematic_track_display_geo_locked() {
    let track = ProblematicTrack {
        id: "456".to_string(),
        name: "Locked Song".to_string(),
        artists: "Famous Singer".to_string(),
        album: "Region Album".to_string(),
        reason: "Unplayable".to_string(),
        external_url: "http://...".to_string(),
        available_markets_count: 5,
    };

    let display = track.to_display_string();
    assert!(display.contains("🌍 GEO-LOCKED"));
    assert!(display.contains("Available in 5 markets"));
}

#[test]
fn test_audit_summary_aggregation() {
    let mut summary = AuditSummary::new();
    assert_eq!(summary.total_tracks_scanned, 0);
    assert!(summary.problematic_tracks.is_empty());

    let track = ProblematicTrack {
        id: "1".to_string(),
        name: "A".to_string(),
        artists: "B".to_string(),
        album: "C".to_string(),
        reason: "D".to_string(),
        external_url: "E".to_string(),
        available_markets_count: 0,
    };

    summary.add_problem(track);
    summary.total_tracks_scanned += 1;

    assert_eq!(summary.total_tracks_scanned, 1);
    assert_eq!(summary.problematic_tracks.len(), 1);
    assert_eq!(summary.problematic_tracks[0].name, "A");
}

#[test]
fn display_line_has_every_part_in_order() {
    let track = ProblematicTrack {
        id: "spotify:track:abc".to_string(),
        name: "Song".to_string(),
        artists: "X, Y".to_string(),
        album: "Alb".to_string(),
        reason: "Why".to_string(),
        external_url: "u".to_string(),
        available_markets_count: 123,
    };
    assert_eq!(
        track.to_display_string(),
        "[spotify:track:abc] Song - X, Y (Album: Alb) -> Why | 🌍 GEO-LOCKED (Available in 123 markets)"
    );
}

#[test]
fn playlist_summary_falls_back_to_owner_id() {
    let p = PlaylistSummary::from_listing(
        "pl".to_string(),
        "Mix".to_string(),
        7,
        None,
        true,
        None,
        "owner42".to_string(),
    );
    assert_eq!(p.owner_name, "owner42");
    assert!(!p.is_public);
    assert!(p.is_collaborative);
    assert_eq!(p.total_tracks, 7);

    let q = PlaylistSummary::from_listing(
        "pl".to_string(),
        "Mix".to_string(),
        7,
        Some(true),
        false,
        Some("Ann".to_string()),
        "owner42".to_string(),
    );
    assert_eq!(q.owner_name, "Ann");
    assert!(q.is_public);
}

#[test]
fn inspection_copies_every_field() {
    let t = Track {
        id: None,
        name: "N".to_string(),
        artists: vec!["A".to_string(), "B".to_string()],
        album: "Al".to_string(),
        is_playable: Some(true),
        available_markets: vec!["SE".to_string()],
        external_ids: vec![("isrc".to_string(), "X1".to_string())],
        external_urls: vec![("spotify".to_string(), "https://x".to_string())],
        popularity: 40,
        release_date: "2020-01-01".to_string(),
        duration_ms: 1000,
        disc_number: 1,
        track_number: 3,
        is_local: false,
    };
    let i = TrackInspection::from_track(t);
    assert_eq!(i.id, "");
    assert_eq!(i.artists, vec!["A".to_string(), "B".to_string()]);
    assert_eq!(i.available_markets.len(), 1);
    assert_eq!(i.external_ids[0].1, "X1");
    assert_eq!(i.release_date, "2020-01-01");
    assert_eq!(i.track_number, 3);
    assert_eq!(i.is_playable, Some(true));
}
