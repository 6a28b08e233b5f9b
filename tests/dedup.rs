use audit_core::dedup::{resolve_duplicates, track_isrc};
use audit_core::Track;

fn track(id: Option<&str>, isrc: Option<&str>, markets: usize) -> Track {
    Track {
        id: id.map(|s| s.to_string()),
        name: format!("song-{}", id.unwrap_or("local")),
        artists: vec![],
        album: String::new(),
        is_playable: None,
        available_markets: (0..markets).map(|i| format!("M{}", i)).collect(),
        external_ids: match isrc {
            Some(x) => vec![("ean".to_string(), "0".to_string()), ("isrc".to_string(), x.to_string())],
            None => vec![("upc".to_string(), "1".to_string())],
        },
        external_urls: vec![],
        popularity: 0,
        release_date: String::new(),
        duration_ms: 0,
        disc_number: 0,
        track_number: 0,
        is_local: false,
    }
}

#[test]
fn tie_broken_by_encounter_order() {
    let tracks = vec![
        track(Some("A"), Some("X"), 3),
        track(Some("B"), Some("X"), 0),
        track(Some("C"), Some("X"), 3),
    ];
    let (ids, descs) = resolve_duplicates(&tracks);
    assert_eq!(ids, vec!["C".to_string(), "B".to_string()]);
    assert_eq!(descs, vec!["song-C (Markets: 3)".to_string(), "song-B (Markets: 0)".to_string()]);
}

#[test]
fn dead_group_is_left_alone() {
    let tracks = vec![track(Some("A"), Some("X"), 0), track(Some("B"), Some("X"), 0)];
    let (ids, descs) = resolve_duplicates(&tracks);
    assert!(ids.is_empty());
    assert!(descs.is_empty());
}

#[test]
fn tracks_without_isrc_are_never_proposed() {
    let tracks = vec![
        track(Some("A"), None, 0),
        track(Some("B"), Some("Y"), 5),
        track(Some("C"), None, 0),
        track(Some("D"), Some("Y"), 2),
    ];
    let (ids, _) = resolve_duplicates(&tracks);
    assert_eq!(ids, vec!["D".to_string()]);
}

#[test]
fn best_copy_kept_even_when_encountered_later() {
    let tracks = vec![
        track(Some("old"), Some("Z"), 0),
        track(Some("other"), Some("W"), 1),
        track(Some("new"), Some("Z"), 9),
        track(Some("mid"), Some("Z"), 4),
    ];
    let (ids, descs) = resolve_duplicates(&tracks);
    assert_eq!(ids, vec!["mid".to_string(), "old".to_string()]);
    assert_eq!(descs[1], "song-old (Markets: 0)");
}

#[test]
fn same_identifier_as_keeper_and_missing_identifiers_are_skipped() {
    let tracks = vec![
        track(Some("K"), Some("X"), 2),
        track(Some("K"), Some("X"), 1),
        track(None, Some("X"), 0),
        track(Some("E"), Some("X"), 1),
        track(Some("E"), Some("X"), 0),
    ];
    let (ids, descs) = resolve_duplicates(&tracks);
    assert_eq!(ids, vec!["E".to_string()]);
    assert_eq!(descs.len(), 1);
}

#[test]
fn groups_come_in_order_of_first_encounter() {
    let tracks = vec![
        track(Some("p1"), Some("P"), 1),
        track(Some("q1"), Some("Q"), 1),
        track(Some("q2"), Some("Q"), 0),
        track(Some("p2"), Some("P"), 0),
    ];
    let (ids, _) = resolve_duplicates(&tracks);
    assert_eq!(ids, vec!["p2".to_string(), "q2".to_string()]);
}

#[test]
fn isrc_lookup_reads_the_isrc_entry() {
    assert_eq!(track_isrc(&track(Some("a"), Some("USRC1"), 0)), Some("USRC1".to_string()));
    assert_eq!(track_isrc(&track(Some("a"), None, 0)), None);
}
