//! The decisions of a playlist-to-liked sync. The caller performs the catalog
//! calls (liked-count queries, bulk adds) and feeds their results in here.
use vstd::prelude::*;
use vstd::string::StringExecFns;
use crate::batch::{batch_views, chunk_ids, flatten, is_split_of, MAX_BATCH_SIZE};
use crate::models::{PlaylistItem, SyncBatchLog, SyncReport};

verus! {

/// Identifiers of the playlist's tracks that have one, in playlist order.
pub open spec fn collectible_ids(items: Seq<PlaylistItem>) -> Seq<String>
    decreases items.len(),
{
    if items.len() == 0 {
        Seq::empty()
    } else {
        match items.last() {
            PlaylistItem::Track(t) => match t.id {
                Some(id) => collectible_ids(items.drop_last()).push(id),
                None => collectible_ids(items.drop_last()),
            },
            PlaylistItem::Other => collectible_ids(items.drop_last()),
        }
    }
}

/// Every identifier carried by the logged batches, in issuance order.
pub open spec fn logged_ids(logs: Seq<SyncBatchLog>) -> Seq<String> {
    flatten(logs.map_values(|l: SyncBatchLog| l.track_ids@))
}

/// The status recorded for a batch: success, or the failure's description.
pub open spec fn status_of(outcome: Result<(), String>) -> Seq<char> {
    match outcome {
        Ok(_) => "Success"@,
        Err(e) => "Error: "@ + e@,
    }
}

/// Liked-count growth, clamped at zero when the count went down.
pub open spec fn estimated_growth(initial: u32, fin: u32) -> u32 {
    if fin >= initial { (fin - initial) as u32 } else { 0 }
}

/// Identifiers of the playlist's tracks that have one, in playlist order.
pub fn collect_track_ids(items: &Vec<PlaylistItem>) -> (r: Vec<String>)
    ensures
        r@ == collectible_ids(items@),
        r@.len() <= items@.len(),
{
    let mut out: Vec<String> = Vec::new();
    let mut i: usize = 0;
    while i < items.len()
        invariant
            i <= items@.len(),
            out@ == collectible_ids(items@.subrange(0, i as int)),
            out@.len() <= i,
        decreases items.len() - i,
    {
        let ghost pre = items@.subrange(0, i as int);
        let ghost next = items@.subrange(0, i + 1);
        assert(next.drop_last() =~= pre);
        assert(next.last() == items@[i as int]);
        match &items[i] {
            PlaylistItem::Track(t) => match &t.id {
                Some(id) => {
                    out.push(id.clone());
                },
                None => {},
            },
            PlaylistItem::Other => {},
        }
        i = i + 1;
    }
    assert(items@.subrange(0, items@.len() as int) =~= items@);
    out
}

/// Plans a sync once the initial liked count is known and the playlist has been
/// enumerated: every item counts toward the playlist total, the tracks with an
/// identifier are processed, and those identifiers are cut into the batches to
/// add. With nothing to add the report is already final and no batch is planned.
pub fn plan_sync(initial_liked_count: u32, items: &Vec<PlaylistItem>) -> (r: (SyncReport, Vec<Vec<String>>))
    requires
        items@.len() <= u32::MAX,
    ensures
        r.0.initial_liked_count == initial_liked_count,
        r.0.total_tracks_in_playlist == items@.len(),
        r.0.tracks_processed == collectible_ids(items@).len(),
        r.0.estimated_added == 0,
        r.0.batch_logs@.len() == 0,
        r.0.final_liked_count == (if collectible_ids(items@).len() == 0 { initial_liked_count } else { 0 }),
        is_split_of(batch_views(r.1@), collectible_ids(items@), MAX_BATCH_SIZE as nat),
        collectible_ids(items@).len() == 0 ==> r.1@.len() == 0,
{
    let ids = collect_track_ids(items);
    let mut report = SyncReport {
        initial_liked_count,
        final_liked_count: 0,
        total_tracks_in_playlist: items.len() as u32,
        tracks_processed: ids.len() as u32,
        estimated_added: 0,
        batch_logs: Vec::new(),
    };
    if ids.len() == 0 {
        report.final_liked_count = report.initial_liked_count;
        let none: Vec<Vec<String>> = Vec::new();
        assert(batch_views(none@) =~= Seq::<Seq<String>>::empty());
        assert(ids@ =~= Seq::<String>::empty());
        return (report, none);
    }
    let batches = chunk_ids(&ids, MAX_BATCH_SIZE);
    (report, batches)
}

impl SyncReport {
    /// Records the outcome of the next batch; a failed batch is recorded, not escalated.
    pub fn record_batch(&mut self, track_ids: Vec<String>, outcome: Result<(), String>)
        ensures
            final(self).initial_liked_count == old(self).initial_liked_count,
            final(self).final_liked_count == old(self).final_liked_count,
            final(self).total_tracks_in_playlist == old(self).total_tracks_in_playlist,
            final(self).tracks_processed == old(self).tracks_processed,
            final(self).estimated_added == old(self).estimated_added,
            final(self).batch_logs@.len() == old(self).batch_logs@.len() + 1,
            final(self).batch_logs@.drop_last() == old(self).batch_logs@,
            final(self).batch_logs@.last().batch_index == old(self).batch_logs@.len(),
            final(self).batch_logs@.last().tracks_count == track_ids@.len(),
            final(self).batch_logs@.last().track_ids@ == track_ids@,
            final(self).batch_logs@.last().status@ == status_of(outcome),
            logged_ids(final(self).batch_logs@) == logged_ids(old(self).batch_logs@) + track_ids@,
    {
        let status = match &outcome {
            Ok(_) => String::from_str("Success"),
            Err(e) => {
                let mut s = String::from_str("Error: ");
                s.append(e.as_str());
                s
            },
        };
        let ghost ids = track_ids@;
        let log = SyncBatchLog {
            batch_index: self.batch_logs.len(),
            tracks_count: track_ids.len(),
            track_ids,
            status,
        };
        self.batch_logs.push(log);
        proof {
            let f = |l: SyncBatchLog| l.track_ids@;
            let nv = self.batch_logs@.map_values(f);
            assert(self.batch_logs@.drop_last() =~= old(self).batch_logs@);
            assert(nv.drop_last() =~= old(self).batch_logs@.map_values(f));
            assert(nv.last() == ids);
        }
    }

    /// Closes the report with the liked count measured after the batches.
    pub fn finish(&mut self, final_liked_count: u32)
        ensures
            final(self).initial_liked_count == old(self).initial_liked_count,
            final(self).total_tracks_in_playlist == old(self).total_tracks_in_playlist,
            final(self).tracks_processed == old(self).tracks_processed,
            final(self).batch_logs@ == old(self).batch_logs@,
            final(self).final_liked_count == final_liked_count,
            final(self).estimated_added == estimated_growth(old(self).initial_liked_count, final_liked_count),
    {
        self.final_liked_count = final_liked_count;
        if self.final_liked_count >= self.initial_liked_count {
            self.estimated_added = self.final_liked_count - self.initial_liked_count;
        } else {
            self.estimated_added = 0;
        }
    }
}

} // verus!
