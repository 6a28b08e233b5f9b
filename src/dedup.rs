//! Duplicate resolution: tracks sharing an ISRC are grouped, the copy available
//! in the most markets is kept, and the others are proposed for removal.
use vstd::prelude::*;
use vstd::string::StringExecFns;
use crate::models::Track;
use crate::text::{decimal_text, lookup, lookup_value, usize_text};

verus! {

pub open spec fn isrc_of(t: Track) -> Option<Seq<char>> {
    lookup(t.external_ids@, "isrc"@)
}

pub open spec fn has_isrc(t: Track, x: Seq<char>) -> bool {
    isrc_of(t) == Some(x)
}

pub open spec fn markets(t: Track) -> nat {
    t.available_markets@.len()
}

pub open spec fn id_view(t: Track) -> Seq<char> {
    match t.id {
        Some(s) => s@,
        None => Seq::empty(),
    }
}

/// Positions below `n` of the tracks carrying ISRC `x`, in encounter order.
pub open spec fn members(ts: Seq<Track>, x: Seq<char>, n: nat) -> Seq<usize>
    decreases n,
{
    if n == 0 {
        Seq::empty()
    } else if has_isrc(ts[n - 1], x) {
        members(ts, x, (n - 1) as nat).push((n - 1) as usize)
    } else {
        members(ts, x, (n - 1) as nat)
    }
}

/// Position in `m` of the first track with the most markets.
pub open spec fn best_pos(ts: Seq<Track>, m: Seq<usize>) -> int
    decreases m.len(),
{
    if m.len() <= 1 {
        0
    } else {
        let b = best_pos(ts, m.drop_last());
        if markets(ts[m.last() as int]) > markets(ts[m[b] as int]) {
            m.len() - 1
        } else {
            b
        }
    }
}

/// `m` ordered by descending market count; equal counts keep their encounter order.
pub open spec fn by_markets(ts: Seq<Track>, m: Seq<usize>) -> Seq<usize>
    decreases m.len(),
{
    let b = best_pos(ts, m);
    if 0 <= b < m.len() {
        seq![m[b]] + by_markets(ts, m.remove(b))
    } else {
        Seq::empty()
    }
}

/// Whether `d` is proposed for removal beside the keeper `k`: it has an
/// identifier, and it is not the keeper's.
pub open spec fn is_redundant(k: Track, d: Track) -> bool {
    match d.id {
        Some(di) => match k.id {
            Some(ki) => ki@ != di@,
            None => true,
        },
        None => false,
    }
}

/// The members of `s` redundant beside the keeper, in order.
pub open spec fn redundant(ts: Seq<Track>, k: Track, s: Seq<usize>) -> Seq<usize>
    decreases s.len(),
{
    if s.len() == 0 {
        Seq::empty()
    } else if is_redundant(k, ts[s.last() as int]) {
        redundant(ts, k, s.drop_last()).push(s.last())
    } else {
        redundant(ts, k, s.drop_last())
    }
}

/// Removals for one group already in market order: none when the group is a
/// single track or when even its best copy is available nowhere.
pub open spec fn removals_of_sorted(ts: Seq<Track>, s: Seq<usize>) -> Seq<usize> {
    if s.len() > 1 && markets(ts[s[0] as int]) > 0 {
        redundant(ts, ts[s[0] as int], s.drop_first())
    } else {
        Seq::empty()
    }
}

/// Removals proposed for the group of ISRC `x`.
pub open spec fn group_removals(ts: Seq<Track>, x: Seq<char>) -> Seq<usize> {
    removals_of_sorted(ts, by_markets(ts, members(ts, x, ts.len())))
}

/// The track at `i` is the first one carrying its ISRC.
pub open spec fn is_leader(ts: Seq<Track>, i: int) -> bool {
    match isrc_of(ts[i]) {
        Some(x) => forall|j: int| 0 <= j < i ==> !has_isrc(#[trigger] ts[j], x),
        None => false,
    }
}

/// Removals of every group whose first track lies below `n`, group after group.
pub open spec fn all_removals(ts: Seq<Track>, n: nat) -> Seq<usize>
    decreases n,
{
    if n == 0 {
        Seq::empty()
    } else if is_leader(ts, n - 1) {
        all_removals(ts, (n - 1) as nat) + group_removals(ts, isrc_of(ts[n - 1]).unwrap())
    } else {
        all_removals(ts, (n - 1) as nat)
    }
}

/// `r` without the positions whose identifier already occurred earlier.
pub open spec fn unique_ids(ts: Seq<Track>, r: Seq<usize>) -> Seq<usize>
    decreases r.len(),
{
    if r.len() == 0 {
        Seq::empty()
    } else {
        let p = unique_ids(ts, r.drop_last());
        if exists|j: int| 0 <= j < p.len() && id_view(ts[p[j] as int]) == id_view(ts[r.last() as int]) {
            p
        } else {
            p.push(r.last())
        }
    }
}

/// The positions of the tracks proposed for removal, in group-then-member order.
pub open spec fn proposed(ts: Seq<Track>) -> Seq<usize> {
    unique_ids(ts, all_removals(ts, ts.len()))
}

/// `name (Markets: n)`
pub open spec fn description(t: Track) -> Seq<char> {
    t.name@ + " (Markets: "@ + decimal_text(markets(t)) + ")"@
}

/// The ISRC of a track, when its external identifiers carry one.
pub fn track_isrc(t: &Track) -> (r: Option<String>)
    ensures
        match r {
            Some(v) => isrc_of(*t) == Some(v@),
            None => isrc_of(*t).is_none(),
        },
{
    let key = String::from_str("isrc");
    lookup_value(&t.external_ids, &key)
}

fn describe(t: &Track) -> (r: String)
    ensures
        r@ == description(*t),
{
    let mut s = t.name.clone();
    s.append(" (Markets: ");
    let n = usize_text(t.available_markets.len());
    s.append(n.as_str());
    s.append(")");
    s
}

/// Whether no track before `i` carries ISRC `x`.
fn first_with_isrc(tracks: &Vec<Track>, i: usize, x: &String) -> (r: bool)
    requires
        i <= tracks@.len(),
    ensures
        r == forall|j: int| 0 <= j < i ==> !has_isrc(#[trigger] tracks@[j], x@),
{
    let mut j: usize = 0;
    while j < i
        invariant
            j <= i <= tracks@.len(),
            forall|k: int| 0 <= k < j ==> !has_isrc(#[trigger] tracks@[k], x@),
        decreases i - j,
    {
        match track_isrc(&tracks[j]) {
            Some(y) => {
                if y == *x {
                    return false;
                }
            },
            None => {},
        }
        j = j + 1;
    }
    true
}

/// Positions of all tracks carrying ISRC `x`, in encounter order.
fn group_members(tracks: &Vec<Track>, x: &String) -> (r: Vec<usize>)
    ensures
        r@ == members(tracks@, x@, tracks@.len()),
        forall|k: int| 0 <= k < r@.len() ==> #[trigger] r@[k] < tracks@.len(),
{
    let mut out: Vec<usize> = Vec::new();
    let mut i: usize = 0;
    while i < tracks.len()
        invariant
            i <= tracks@.len(),
            out@ == members(tracks@, x@, i as nat),
            forall|k: int| 0 <= k < out@.len() ==> #[trigger] out@[k] < i,
        decreases tracks.len() - i,
    {
        let carries = match track_isrc(&tracks[i]) {
            Some(y) => y == *x,
            None => false,
        };
        if carries {
            out.push(i);
        }
        i = i + 1;
    }
    out
}

/// Position of the first track with the most markets among `m`.
fn best_position(tracks: &Vec<Track>, m: &Vec<usize>) -> (r: usize)
    requires
        m@.len() > 0,
        forall|k: int| 0 <= k < m@.len() ==> #[trigger] m@[k] < tracks@.len(),
    ensures
        r == best_pos(tracks@, m@),
        r < m@.len(),
{
    let mut b: usize = 0;
    let mut j: usize = 1;
    while j < m.len()
        invariant
            1 <= j <= m@.len(),
            b < j,
            forall|k: int| 0 <= k < m@.len() ==> #[trigger] m@[k] < tracks@.len(),
            b == best_pos(tracks@, m@.subrange(0, j as int)),
        decreases m.len() - j,
    {
        let ghost pre = m@.subrange(0, j as int);
        let ghost next = m@.subrange(0, j + 1);
        assert(next.drop_last() =~= pre);
        assert(pre[b as int] == m@[b as int]);
        if tracks[m[j]].available_markets.len() > tracks[m[b]].available_markets.len() {
            b = j;
        }
        j = j + 1;
    }
    assert(m@.subrange(0, m@.len() as int) =~= m@);
    b
}

/// `m` ordered by descending market count, ties kept in encounter order.
fn order_by_markets(tracks: &Vec<Track>, m: Vec<usize>) -> (r: Vec<usize>)
    requires
        forall|k: int| 0 <= k < m@.len() ==> #[trigger] m@[k] < tracks@.len(),
    ensures
        r@ == by_markets(tracks@, m@),
        forall|k: int| 0 <= k < r@.len() ==> #[trigger] r@[k] < tracks@.len(),
{
    let ghost target = by_markets(tracks@, m@);
    let mut rest = m;
    let mut out: Vec<usize> = Vec::new();
    while rest.len() > 0
        invariant
            out@ + by_markets(tracks@, rest@) == target,
            forall|k: int| 0 <= k < rest@.len() ==> #[trigger] rest@[k] < tracks@.len(),
            forall|k: int| 0 <= k < out@.len() ==> #[trigger] out@[k] < tracks@.len(),
        decreases rest@.len(),
    {
        let b = best_position(tracks, &rest);
        let ghost before_rest = rest@;
        let ghost before_out = out@;
        let x = rest.remove(b);
        out.push(x);
        proof {
            assert(by_markets(tracks@, before_rest) == seq![x] + by_markets(tracks@, rest@));
            assert(out@ + by_markets(tracks@, rest@) =~= before_out + by_markets(tracks@, before_rest));
            assert forall|k: int| 0 <= k < rest@.len() implies #[trigger] rest@[k] < tracks@.len() by {
                if k < b {
                    assert(rest@[k] == before_rest[k]);
                } else {
                    assert(rest@[k] == before_rest[k + 1]);
                }
            }
        }
    }
    assert(by_markets(tracks@, rest@) =~= Seq::<usize>::empty());
    assert(out@ + Seq::<usize>::empty() =~= out@);
    out
}

/// Removals for one group already in market order.
fn removals_for_sorted(tracks: &Vec<Track>, s: &Vec<usize>) -> (r: Vec<usize>)
    requires
        forall|k: int| 0 <= k < s@.len() ==> #[trigger] s@[k] < tracks@.len(),
    ensures
        r@ == removals_of_sorted(tracks@, s@),
        forall|k: int| 0 <= k < r@.len() ==> #[trigger] r@[k] < tracks@.len(),
        forall|k: int| 0 <= k < r@.len() ==> tracks@[#[trigger] r@[k] as int].id.is_some(),
{
    let mut out: Vec<usize> = Vec::new();
    if s.len() <= 1 || tracks[s[0]].available_markets.len() == 0 {
        return out;
    }
    let keeper = &tracks[s[0]];
    let mut k: usize = 1;
    assert(s@.subrange(1, 1) =~= Seq::<usize>::empty());
    while k < s.len()
        invariant
            1 <= k <= s@.len(),
            *keeper == tracks@[s@[0] as int],
            forall|q: int| 0 <= q < s@.len() ==> #[trigger] s@[q] < tracks@.len(),
            out@ == redundant(tracks@, *keeper, s@.subrange(1, k as int)),
            forall|q: int| 0 <= q < out@.len() ==> #[trigger] out@[q] < tracks@.len(),
            forall|q: int| 0 <= q < out@.len() ==> tracks@[#[trigger] out@[q] as int].id.is_some(),
        decreases s.len() - k,
    {
        let ghost pre = s@.subrange(1, k as int);
        let ghost next = s@.subrange(1, k + 1);
        assert(next.drop_last() =~= pre);
        let d = &tracks[s[k]];
        match &d.id {
            Some(di) => {
                let same = match &keeper.id {
                    Some(ki) => *ki == *di,
                    None => false,
                };
                if !same {
                    out.push(s[k]);
                }
            },
            None => {},
        }
        k = k + 1;
    }
    assert(s@.subrange(1, s@.len() as int) =~= s@.drop_first());
    out
}

/// Whether some collected identifier equals `id`.
fn holds_id(ids: &Vec<String>, id: &String) -> (r: bool)
    ensures
        r == exists|j: int| 0 <= j < ids@.len() && (#[trigger] ids@[j])@ == id@,
{
    let mut j: usize = 0;
    while j < ids.len()
        invariant
            j <= ids@.len(),
            forall|q: int| 0 <= q < j ==> (#[trigger] ids@[q])@ != id@,
        decreases ids.len() - j,
    {
        if ids[j] == *id {
            return true;
        }
        j = j + 1;
    }
    false
}

/// Proposes the redundant copies among `tracks` for removal. Returns their
/// identifiers and, position for position, a description of each.
pub fn resolve_duplicates(tracks: &Vec<Track>) -> (r: (Vec<String>, Vec<String>))
    ensures
        r.0@.len() == proposed(tracks@).len(),
        r.1@.len() == proposed(tracks@).len(),
        forall|k: int|
            0 <= k < proposed(tracks@).len() ==> (#[trigger] r.0@[k])@ == id_view(
                tracks@[proposed(tracks@)[k] as int],
            ),
        forall|k: int|
            0 <= k < proposed(tracks@).len() ==> (#[trigger] r.1@[k])@ == description(
                tracks@[proposed(tracks@)[k] as int],
            ),
{
    let ghost ts = tracks@;
    let mut ids: Vec<String> = Vec::new();
    let mut descs: Vec<String> = Vec::new();
    let ghost mut raw: Seq<usize> = Seq::empty();
    let ghost mut uniq: Seq<usize> = Seq::empty();
    let mut i: usize = 0;
    while i < tracks.len()
        invariant
            ts == tracks@,
            i <= ts.len(),
            raw == all_removals(ts, i as nat),
            uniq == unique_ids(ts, raw),
            forall|q: int| 0 <= q < uniq.len() ==> #[trigger] uniq[q] < ts.len(),
            ids@.len() == uniq.len(),
            descs@.len() == uniq.len(),
            forall|q: int| 0 <= q < uniq.len() ==> (#[trigger] ids@[q])@ == id_view(ts[uniq[q] as int]),
            forall|q: int| 0 <= q < uniq.len() ==> (#[trigger] descs@[q])@ == description(ts[uniq[q] as int]),
        decreases tracks.len() - i,
    {
        match track_isrc(&tracks[i]) {
            Some(x) => {
                if first_with_isrc(tracks, i, &x) {
                    let m = group_members(tracks, &x);
                    let s = order_by_markets(tracks, m);
                    let g = removals_for_sorted(tracks, &s);
                    assert(is_leader(ts, i as int));
                    assert(g@ == group_removals(ts, isrc_of(ts[i as int]).unwrap()));
                    let mut k: usize = 0;
                    assert(raw + g@.subrange(0, 0) =~= raw);
                    while k < g.len()
                        invariant
                            ts == tracks@,
                            k <= g@.len(),
                            forall|q: int| 0 <= q < g@.len() ==> #[trigger] g@[q] < ts.len(),
                            forall|q: int| 0 <= q < g@.len() ==> ts[#[trigger] g@[q] as int].id.is_some(),
                            uniq == unique_ids(ts, raw + g@.subrange(0, k as int)),
                            forall|q: int| 0 <= q < uniq.len() ==> #[trigger] uniq[q] < ts.len(),
                            ids@.len() == uniq.len(),
                            descs@.len() == uniq.len(),
                            forall|q: int| 0 <= q < uniq.len() ==> (#[trigger] ids@[q])@ == id_view(ts[uniq[q] as int]),
                            forall|q: int| 0 <= q < uniq.len() ==> (#[trigger] descs@[q])@ == description(ts[uniq[q] as int]),
                        decreases g.len() - k,
                    {
                        let ghost pre = raw + g@.subrange(0, k as int);
                        let ghost next = raw + g@.subrange(0, k + 1);
                        assert(next.drop_last() =~= pre);
                        assert(next.last() == g@[k as int]);
                        let t = &tracks[g[k]];
                        assert(t.id.is_some());
                        match &t.id {
                            Some(d) => {
                                let seen = holds_id(&ids, d);
                                proof {
                                    let cond = exists|j: int|
                                        0 <= j < uniq.len() && id_view(ts[uniq[j] as int]) == id_view(
                                            ts[next.last() as int],
                                        );
                                    if seen {
                                        let j = choose|j: int| 0 <= j < ids@.len() && (#[trigger] ids@[j])@ == d@;
                                        assert(id_view(ts[uniq[j] as int]) == id_view(ts[next.last() as int]));
                                        assert(cond);
                                    } else {
                                        assert forall|j: int| 0 <= j < uniq.len() implies id_view(
                                            ts[uniq[j] as int],
                                        ) != id_view(ts[next.last() as int]) by {
                                            assert(ids@[j]@ != d@);
                                        }
                                        assert(!cond);
                                    }
                                }
                                if !seen {
                                    ids.push(d.clone());
                                    descs.push(describe(t));
                                    proof {
                                        uniq = uniq.push(g@[k as int]);
                                    }
                                }
                            },
                            None => {},
                        }
                        k = k + 1;
                    }
                    proof {
                        assert(g@.subrange(0, g@.len() as int) =~= g@);
                        raw = raw + g@;
                    }
                } else {
                    assert(!is_leader(ts, i as int));
                }
            },
            None => {
                assert(!is_leader(ts, i as int));
            },
        }
        i = i + 1;
    }
    (ids, descs)
}

proof fn lemma_best_pos_in_range(ts: Seq<Track>, m: Seq<usize>)
    requires
        m.len() > 0,
    ensures
        0 <= best_pos(ts, m) < m.len(),
    decreases m.len(),
{
    if m.len() > 1 {
        lemma_best_pos_in_range(ts, m.drop_last());
    }
}

proof fn lemma_by_markets_within(ts: Seq<Track>, m: Seq<usize>)
    ensures
        forall|q: int| 0 <= q < by_markets(ts, m).len() ==> m.contains(#[trigger] by_markets(ts, m)[q]),
        m.len() > 0 ==> by_markets(ts, m).len() > 0 && by_markets(ts, m)[0] == m[best_pos(ts, m)],
    decreases m.len(),
{
    if m.len() > 0 {
        lemma_best_pos_in_range(ts, m);
        let b = best_pos(ts, m);
        let rest = m.remove(b);
        lemma_by_markets_within(ts, rest);
        let o = by_markets(ts, m);
        assert(o == seq![m[b]] + by_markets(ts, rest));
        assert forall|q: int| 0 <= q < o.len() implies m.contains(#[trigger] o[q]) by {
            if q == 0 {
                assert(m[b] == o[0]);
            } else {
                assert(o[q] == by_markets(ts, rest)[q - 1]);
                assert(rest.contains(o[q]));
                let j = choose|j: int| 0 <= j < rest.len() && rest[j] == o[q];
                if j < b {
                    assert(m[j] == o[q]);
                } else {
                    assert(m[j + 1] == o[q]);
                }
            }
        }
    }
}

proof fn lemma_members_carry(ts: Seq<Track>, x: Seq<char>, n: nat)
    requires
        n <= ts.len() <= usize::MAX,
    ensures
        forall|q: int|
            0 <= q < members(ts, x, n).len() ==> (#[trigger] members(ts, x, n)[q]) < n && has_isrc(
                ts[members(ts, x, n)[q] as int],
                x,
            ),
    decreases n,
{
    if n > 0 {
        let p = members(ts, x, (n - 1) as nat);
        lemma_members_carry(ts, x, (n - 1) as nat);
        let m = members(ts, x, n);
        assert forall|q: int| 0 <= q < m.len() implies (#[trigger] m[q]) < n && has_isrc(
            ts[m[q] as int],
            x,
        ) by {
            if q < p.len() {
                assert(m[q] == p[q]);
            } else {
                assert(m[q] == (n - 1) as usize);
            }
        }
    }
}

proof fn lemma_redundant_within(ts: Seq<Track>, k: Track, s: Seq<usize>)
    ensures
        forall|q: int| 0 <= q < redundant(ts, k, s).len() ==> s.contains(#[trigger] redundant(ts, k, s)[q]),
    decreases s.len(),
{
    if s.len() > 0 {
        let p = s.drop_last();
        lemma_redundant_within(ts, k, p);
        let r = redundant(ts, k, s);
        assert forall|q: int| 0 <= q < r.len() implies s.contains(#[trigger] r[q]) by {
            if q < redundant(ts, k, p).len() {
                assert(p.contains(r[q]));
                let j = choose|j: int| 0 <= j < p.len() && p[j] == r[q];
                assert(s[j] == r[q]);
            } else {
                assert(s[s.len() - 1] == r[q]);
            }
        }
    }
}

proof fn lemma_unique_within(ts: Seq<Track>, r: Seq<usize>)
    ensures
        forall|q: int| 0 <= q < unique_ids(ts, r).len() ==> r.contains(#[trigger] unique_ids(ts, r)[q]),
    decreases r.len(),
{
    if r.len() > 0 {
        let p = r.drop_last();
        lemma_unique_within(ts, p);
        let u = unique_ids(ts, r);
        assert forall|q: int| 0 <= q < u.len() implies r.contains(#[trigger] u[q]) by {
            if q < unique_ids(ts, p).len() {
                assert(p.contains(u[q]));
                let j = choose|j: int| 0 <= j < p.len() && p[j] == u[q];
                assert(r[j] == u[q]);
            } else {
                assert(r[r.len() - 1] == u[q]);
            }
        }
    }
}

proof fn lemma_group_removals_carry(ts: Seq<Track>, x: Seq<char>)
    requires
        ts.len() <= usize::MAX,
    ensures
        forall|q: int|
            0 <= q < group_removals(ts, x).len() ==> (#[trigger] group_removals(ts, x)[q]) < ts.len()
                && has_isrc(ts[group_removals(ts, x)[q] as int], x),
{
    let m = members(ts, x, ts.len());
    let s = by_markets(ts, m);
    let g = group_removals(ts, x);
    lemma_members_carry(ts, x, ts.len());
    lemma_by_markets_within(ts, m);
    if s.len() > 1 && markets(ts[s[0] as int]) > 0 {
        let d = s.drop_first();
        lemma_redundant_within(ts, ts[s[0] as int], d);
        assert forall|q: int| 0 <= q < g.len() implies (#[trigger] g[q]) < ts.len() && has_isrc(
            ts[g[q] as int],
            x,
        ) by {
            assert(d.contains(g[q]));
            let j = choose|j: int| 0 <= j < d.len() && d[j] == g[q];
            assert(s[j + 1] == g[q]);
            assert(m.contains(s[j + 1]));
            let i = choose|i: int| 0 <= i < m.len() && m[i] == s[j + 1];
            assert(m[i] == g[q]);
        }
    }
}

proof fn lemma_all_removals_carry(ts: Seq<Track>, n: nat)
    requires
        n <= ts.len() <= usize::MAX,
    ensures
        forall|q: int|
            0 <= q < all_removals(ts, n).len() ==> (#[trigger] all_removals(ts, n)[q]) < ts.len()
                && isrc_of(ts[all_removals(ts, n)[q] as int]).is_some(),
    decreases n,
{
    if n > 0 {
        let p = all_removals(ts, (n - 1) as nat);
        lemma_all_removals_carry(ts, (n - 1) as nat);
        if is_leader(ts, n - 1) {
            let x = isrc_of(ts[n - 1]).unwrap();
            let g = group_removals(ts, x);
            lemma_group_removals_carry(ts, x);
            let a = all_removals(ts, n);
            assert(a == p + g);
            assert forall|q: int| 0 <= q < a.len() implies (#[trigger] a[q]) < ts.len() && isrc_of(
                ts[a[q] as int],
            ).is_some() by {
                if q >= p.len() {
                    assert(a[q] == g[q - p.len()]);
                }
            }
        }
    }
}

/// A group whose every member is available in no market gets no removal:
/// nothing alive backs it.
pub proof fn lemma_dead_group_untouched(ts: Seq<Track>, x: Seq<char>)
    requires
        ts.len() <= usize::MAX,
        forall|i: int| 0 <= i < ts.len() && has_isrc(#[trigger] ts[i], x) ==> markets(ts[i]) == 0,
    ensures
        group_removals(ts, x).len() == 0,
{
    let m = members(ts, x, ts.len());
    let s = by_markets(ts, m);
    lemma_members_carry(ts, x, ts.len());
    lemma_by_markets_within(ts, m);
    if s.len() > 1 {
        assert(m.contains(s[0]));
        let i = choose|i: int| 0 <= i < m.len() && m[i] == s[0];
        assert(has_isrc(ts[m[i] as int], x));
        assert(markets(ts[s[0] as int]) == 0);
    }
}

/// Every proposed removal is a position of the input whose track carries an
/// ISRC: tracks without one are never proposed.
pub proof fn lemma_proposals_carry_isrc(ts: Seq<Track>)
    requires
        ts.len() <= usize::MAX,
    ensures
        forall|q: int|
            0 <= q < proposed(ts).len() ==> (#[trigger] proposed(ts)[q]) < ts.len() && isrc_of(
                ts[proposed(ts)[q] as int],
            ).is_some(),
{
    let a = all_removals(ts, ts.len());
    lemma_all_removals_carry(ts, ts.len());
    lemma_unique_within(ts, a);
    let u = proposed(ts);
    assert forall|q: int| 0 <= q < u.len() implies (#[trigger] u[q]) < ts.len() && isrc_of(
        ts[u[q] as int],
    ).is_some() by {
        assert(a.contains(u[q]));
        let j = choose|j: int| 0 <= j < a.len() && a[j] == u[q];
        assert(a[j] < ts.len());
    }
}

} // verus!
