use audit_core::batch::{chunk_ids, MAX_BATCH_SIZE};
use audit_core::models::PlaylistItem;
use audit_core::models::Track;
use audit_core::sync::{collect_track_ids, plan_sync};

fn ids(n: usize) -> Vec<String> {
    (0..n).map(|i| format!("spotify:track:{}", i)).collect()
}

fn item(id: Option<&str>) -> PlaylistItem {
    PlaylistItem::Track(Track {
        id: id.map(|s| s.to_string()),
        name: "n".to_string(),
        artists: vec![],
        album: String::new(),
        is_playable: None,
        available_markets: vec![],
        external_ids: vec![],
        external_urls: vec![],
        popularity: 0,
        release_date: String::new(),
        duration_ms: 0,
        disc_number: 0,
        track_number: 0,
        is_local: id.is_none(),
    })
}

#[test]
fn chunk_counts_and_concatenation() {
    for n in [0usize, 1, 49, 50, 51, 100, 120] {
        let input = ids(n);
        let chunks = chunk_ids(&input, MAX_BATCH_SIZE);
        assert_eq!(chunks.len(), (n + 49) / 50);
        assert!(chunks.iter().all(|c| !c.is_empty() && c.len() <= 50));
        let joined: Vec<String> = chunks.concat();
        assert_eq!(joined, input);
    }
}

#[test]
fn chunk_of_120_is_50_50_20() {
    let chunks = chunk_ids(&ids(120), 50);
    let lens: Vec<usize> = chunks.iter().map(|c| c.len()).collect();
    assert_eq!(lens, vec![50, 50, 20]);
    assert_eq!(chunks[1][0], "spotify:track:50");
}

#[test]
fn collect_skips_local_files_and_other_items() {
    let items = vec![item(Some("a")), item(None), PlaylistItem::Other, item(Some("b"))];
    assert_eq!(collect_track_ids(&items), vec!["a".to_string(), "b".to_string()]);
}

#[test]
fn empty_playlist_short_circuits() {
    let items = vec![item(None), PlaylistItem::Other];
    let (report, batches) = plan_sync(17, &items);
    assert!(batches.is_empty());
    assert_eq!(report.final_liked_count, 17);
    assert_eq!(report.initial_liked_count, 17);
    assert_eq!(report.total_tracks_in_playlist, 2);
    assert_eq!(report.tracks_processed, 0);
    assert_eq!(report.estimated_added, 0);
}

#[test]
fn sync_plan_logs_and_finish() {
    let mut items: Vec<PlaylistItem> = Vec::new();
    for i in 0..60 {
        items.push(item(Some(&format!("id{}", i))));
    }
    items.push(PlaylistItem::Other);
    let (mut report, batches) = plan_sync(10, &items);
    assert_eq!(report.total_tracks_in_playlist, 61);
    assert_eq!(report.tracks_processed, 60);
    assert_eq!(batches.len(), 2);
    report.record_batch(batches[0].clone(), Ok(()));
    report.record_batch(batches[1].clone(), Err("rate limited".to_string()));
    assert_eq!(report.batch_logs[0].status, "Success");
    assert_eq!(report.batch_logs[0].tracks_count, 50);
    assert_eq!(report.batch_logs[1].batch_index, 1);
    assert_eq!(report.batch_logs[1].tracks_count, 10);
    assert_eq!(report.batch_logs[1].status, "Error: rate limited");
    report.finish(65);
    assert_eq!(report.final_liked_count, 65);
    assert_eq!(report.estimated_added, 55);
}

#[test]
fn estimated_added_is_clamped_at_zero() {
    let (mut report, _) = plan_sync(100, &vec![item(Some("a"))]);
    report.finish(90);
    assert_eq!(report.final_liked_count, 90);
    assert_eq!(report.estimated_added, 0);
}
