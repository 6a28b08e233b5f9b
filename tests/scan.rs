use audit_core::audit::{parse_playlist_id, parse_track_id};
use audit_core::{analyze_track, scan_playlist_items, scan_tracks, AuditError, PlaylistItem, Track};

fn track(id: &str, playable: Option<bool>, markets: usize) -> Track {
    Track {
        id: Some(id.to_string()),
        name: format!("name-{}", id),
        artists: vec!["Ann".to_string(), "Bo".to_string()],
        album: "Album".to_string(),
        is_playable: playable,
        available_markets: (0..markets).map(|i| format!("M{}", i)).collect(),
        external_ids: vec![],
        external_urls: vec![
            ("web".to_string(), "https://web".to_string()),
            ("spotify".to_string(), format!("https://open/{}", id)),
        ],
        popularity: 0,
        release_date: String::new(),
        duration_ms: 0,
        disc_number: 1,
        track_number: 1,
        is_local: false,
    }
}

#[test]
fn unknown_and_playable_tracks_are_not_flagged() {
    assert!(analyze_track(&track("a", None, 0)).is_none());
    assert!(analyze_track(&track("b", Some(true), 0)).is_none());
}

#[test]
fn unplayable_track_is_reported_with_its_fields() {
    let p = analyze_track(&track("c", Some(false), 4)).unwrap();
    assert_eq!(p.id, "c");
    assert_eq!(p.name, "name-c");
    assert_eq!(p.artists, "Ann, Bo");
    assert_eq!(p.album, "Album");
    assert_eq!(p.reason, "Track marked as unplayable by Spotify");
    assert_eq!(p.external_url, "https://open/c");
    assert_eq!(p.available_markets_count, 4);
}

#[test]
fn report_without_identifier_or_link() {
    let mut t = track("d", Some(false), 0);
    t.id = None;
    t.external_urls = vec![];
    t.artists = vec![];
    let p = analyze_track(&t).unwrap();
    assert_eq!(p.id, "unknown");
    assert_eq!(p.external_url, "");
    assert_eq!(p.artists, "");
}

#[test]
fn liked_scan_of_three_with_one_unplayable() {
    let tracks = vec![track("t1", Some(true), 3), track("t2", Some(false), 0), track("t3", None, 2)];
    let s = scan_tracks(&tracks);
    assert_eq!(s.total_tracks_scanned, 3);
    assert_eq!(s.problematic_tracks.len(), 1);
    assert_eq!(s.problematic_tracks[0].id, "t2");
    assert!(s.problematic_tracks[0].reason.contains("unplayable"));
    assert_eq!(s.problematic_tracks[0].available_markets_count, 0);
}

#[test]
fn scan_counts_all_tracks_whatever_is_flagged() {
    let tracks = vec![track("a", Some(false), 0), track("b", Some(false), 1)];
    let s = scan_tracks(&tracks);
    assert_eq!(s.total_tracks_scanned, 2);
    assert_eq!(s.problematic_tracks.len(), 2);
    assert_eq!(s.problematic_tracks[1].id, "b");
    let empty = scan_tracks(&vec![]);
    assert_eq!(empty.total_tracks_scanned, 0);
    assert!(empty.problematic_tracks.is_empty());
}

#[test]
fn playlist_scan_skips_items_that_are_not_tracks() {
    let items = vec![
        PlaylistItem::Other,
        PlaylistItem::Track(track("a", Some(false), 0)),
        PlaylistItem::Other,
        PlaylistItem::Track(track("b", None, 1)),
    ];
    let s = scan_playlist_items(&items);
    assert_eq!(s.total_tracks_scanned, 2);
    assert_eq!(s.problematic_tracks.len(), 1);
    assert_eq!(s.problematic_tracks[0].id, "a");
}

#[test]
fn record_track_counts_and_flags() {
    let mut s = audit_core::AuditSummary::new();
    s.record_track(&track("a", Some(true), 1));
    s.record_track(&track("b", Some(false), 1));
    assert_eq!(s.total_tracks_scanned, 2);
    assert_eq!(s.problematic_tracks.len(), 1);
}

#[test]
fn playlist_identifier_validation() {
    assert_eq!(parse_playlist_id("37i9dQZF1DXcBWIGoYBM5M").unwrap(), "37i9dQZF1DXcBWIGoYBM5M");
    match parse_playlist_id("spotify:playlist:37i9") {
        Err(AuditError::InvalidId(s)) => assert_eq!(s, "spotify:playlist:37i9"),
        _ => panic!("expected an invalid playlist id"),
    }
    assert!(parse_playlist_id("bad id!").is_err());
}

#[test]
fn track_identifier_validation() {
    assert!(parse_track_id("4iV5W9uYEdYUVa79Axb7Rh").is_ok());
    match parse_track_id("4iV5-W9") {
        Err(AuditError::InvalidTrackId(s)) => assert_eq!(s, "4iV5-W9"),
        _ => panic!("expected an invalid track id"),
    }
}
