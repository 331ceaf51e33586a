//! Leaderboard aggregation: resolve a record-type/category/cup selector
//! against an in-memory projection of the store and return, per track of the
//! cup, the ranked record list.
//!
//! Ranking is ascending by total time, ties broken by the store's row order
//! (the sort is stable); a track without matching records still appears, with
//! an empty list.

use vstd::prelude::*;
use crate::model::{Category, Cup, Record, SpecCategory, SpecCup, SpecRecord, SpecTrack, Track};
use crate::response::ApiError;

verus! {

/// The in-memory projection of the store a leaderboard is computed from,
/// each table in the store's row order.
#[derive(Debug)]
pub struct StoreSnapshot {
    pub categories: Vec<Category>,
    pub cups: Vec<Cup>,
    pub tracks: Vec<Track>,
    pub records: Vec<Record>,
}

/// One track's ranked record list for a given category and record type.
#[derive(Debug)]
pub struct TrackLeaderboard {
    pub track: Track,
    pub records: Vec<Record>,
}

/// The mathematical values of a row sequence.
pub open spec fn record_views(v: Seq<Record>) -> Seq<SpecRecord> {
    v.map_values(|r: Record| r@)
}

pub open spec fn track_views(v: Seq<Track>) -> Seq<SpecTrack> {
    v.map_values(|t: Track| t@)
}

pub open spec fn category_views(v: Seq<Category>) -> Seq<SpecCategory> {
    v.map_values(|c: Category| c@)
}

pub open spec fn cup_views(v: Seq<Cup>) -> Seq<SpecCup> {
    v.map_values(|c: Cup| c@)
}

/// Position `i` holds the first category carrying `slug`.
pub open spec fn first_category_at(cats: Seq<SpecCategory>, slug: Seq<char>, i: int) -> bool {
    &&& 0 <= i < cats.len()
    &&& cats[i].slug == slug
    &&& forall|k: int| 0 <= k < i ==> cats[k].slug != slug
}

/// Position `i` holds the first cup carrying `slug`.
pub open spec fn first_cup_at(cups: Seq<SpecCup>, slug: Seq<char>, i: int) -> bool {
    &&& 0 <= i < cups.len()
    &&& cups[i].slug == slug
    &&& forall|k: int| 0 <= k < i ==> cups[k].slug != slug
}

/// Position `i` holds the first track carrying `slug`.
pub open spec fn first_track_at(tracks: Seq<SpecTrack>, slug: Seq<char>, i: int) -> bool {
    &&& 0 <= i < tracks.len()
    &&& tracks[i].slug == slug
    &&& forall|k: int| 0 <= k < i ==> tracks[k].slug != slug
}

/// The tracks of one cup, in row order.
pub open spec fn cup_tracks(tracks: Seq<SpecTrack>, cup_id: u64) -> Seq<SpecTrack>
    decreases tracks.len(),
{
    if tracks.len() == 0 {
        Seq::empty()
    } else {
        let rest = cup_tracks(tracks.drop_last(), cup_id);
        if tracks.last().cup_id == cup_id {
            rest.push(tracks.last())
        } else {
            rest
        }
    }
}

/// Whether a record belongs to one track, category and record type.
pub open spec fn record_matches(
    r: SpecRecord,
    track_id: u64,
    category_id: u64,
    flap: bool,
) -> bool {
    r.track_id == track_id && r.category_id == category_id && r.flap == flap
}

/// The records of one track, category and record type, in row order.
pub open spec fn matching_records(
    records: Seq<SpecRecord>,
    track_id: u64,
    category_id: u64,
    flap: bool,
) -> Seq<SpecRecord>
    decreases records.len(),
{
    if records.len() == 0 {
        Seq::empty()
    } else {
        let rest = matching_records(records.drop_last(), track_id, category_id, flap);
        if record_matches(records.last(), track_id, category_id, flap) {
            rest.push(records.last())
        } else {
            rest
        }
    }
}

/// Stable insertion of a record into a ranked list: after every record at
/// most as slow, before the first strictly slower one.
pub open spec fn insert_ranked(s: Seq<SpecRecord>, r: SpecRecord) -> Seq<SpecRecord>
    decreases s.len(),
{
    if s.len() == 0 {
        seq![r]
    } else if s[0].time_ms <= r.time_ms {
        seq![s[0]] + insert_ranked(s.skip(1), r)
    } else {
        seq![r] + s
    }
}

/// The ranked order of a record list: ascending by total time, ties kept in
/// row order (a stable insertion sort, row by row).
pub open spec fn ranked(s: Seq<SpecRecord>) -> Seq<SpecRecord>
    decreases s.len(),
{
    if s.len() == 0 {
        Seq::empty()
    } else {
        insert_ranked(ranked(s.drop_last()), s.last())
    }
}

/// Ascending by total time.
pub open spec fn ranked_order(s: Seq<SpecRecord>) -> bool {
    forall|i: int, j: int| 0 <= i <= j < s.len() ==> s[i].time_ms <= s[j].time_ms
}

/// The leaderboards `lbs` are exactly one board per track of the cup, in the
/// cup's track order, each internally ranked.
pub open spec fn boards_ok(
    tracks: Seq<SpecTrack>,
    records: Seq<SpecRecord>,
    cup_id: u64,
    category_id: u64,
    flap: bool,
    lbs: Seq<TrackLeaderboard>,
) -> bool {
    let ts = cup_tracks(tracks, cup_id);
    &&& lbs.len() == ts.len()
    &&& forall|k: int|
        0 <= k < lbs.len() ==> (#[trigger] lbs[k]).track@ == ts[k] && record_views(
            lbs[k].records@,
        ) == ranked(matching_records(records, ts[k].id, category_id, flap))
}

// --- laws over the ranking ---------------------------------------------------

/// Inserting into a ranked list keeps it ranked; the result holds the new
/// record and the old ones, one more in all.
proof fn lemma_insert_ranked_sorted(s: Seq<SpecRecord>, r: SpecRecord)
    requires
        ranked_order(s),
    ensures
        ranked_order(insert_ranked(s, r)),
        insert_ranked(s, r).len() == s.len() + 1,
        forall|k: int| 0 <= k < insert_ranked(s, r).len() ==> (insert_ranked(s, r)[k] == r
            || s.contains(insert_ranked(s, r)[k])),
    decreases s.len(),
{
    if s.len() == 0 {
    } else if s[0].time_ms <= r.time_ms {
        assert(ranked_order(s.skip(1))) by {
            assert(forall|k: int| 0 <= k < s.skip(1).len() ==> s.skip(1)[k] == s[k + 1]);
        }
        lemma_insert_ranked_sorted(s.skip(1), r);
        let rest = insert_ranked(s.skip(1), r);
        let res = seq![s[0]] + rest;
        assert forall|i: int, j: int| 0 <= i <= j < res.len() implies res[i].time_ms
            <= res[j].time_ms by {
            if i == 0 && j > 0 {
                assert(res[j] == rest[j - 1]);
                if rest[j - 1] == r {
                } else {
                    assert(s.skip(1).contains(rest[j - 1]));
                    let w = choose|w: int| 0 <= w < s.skip(1).len() && s.skip(1)[w] == rest[j - 1];
                    assert(s[w + 1] == rest[j - 1]);
                }
            } else if i > 0 {
                assert(res[i] == rest[i - 1] && res[j] == rest[j - 1]);
            }
        }
        assert forall|k: int| 0 <= k < res.len() implies (res[k] == r || s.contains(res[k])) by {
            if k == 0 {
                assert(s.contains(s[0]));
            } else if res[k] != r {
                assert(s.skip(1).contains(res[k]));
                let w = choose|w: int| 0 <= w < s.skip(1).len() && s.skip(1)[w] == res[k];
                assert(s[w + 1] == res[k]);
            }
        }
    } else {
        let res = seq![r] + s;
        assert forall|k: int| 0 <= k < res.len() implies (res[k] == r || s.contains(res[k])) by {
            if k > 0 {
                assert(res[k] == s[k - 1]);
            }
        }
    }
}

/// Inserting into a list adds exactly that record to its contents.
proof fn lemma_insert_ranked_multiset(s: Seq<SpecRecord>, r: SpecRecord)
    ensures
        insert_ranked(s, r).to_multiset() == s.to_multiset().insert(r),
        insert_ranked(s, r).len() == s.len() + 1,
    decreases s.len(),
{
    broadcast use vstd::seq_lib::group_to_multiset_ensures;

    if s.len() == 0 {
        assert(seq![r] =~= Seq::<SpecRecord>::empty().push(r));
        assert(insert_ranked(s, r).to_multiset() =~= s.to_multiset().insert(r));
    } else if s[0].time_ms <= r.time_ms {
        lemma_insert_ranked_multiset(s.skip(1), r);
        vstd::seq_lib::lemma_multiset_commutative(seq![s[0]], insert_ranked(s.skip(1), r));
        vstd::seq_lib::lemma_multiset_commutative(seq![s[0]], s.skip(1));
        assert(s =~= seq![s[0]] + s.skip(1));
        assert(seq![s[0]] =~= Seq::<SpecRecord>::empty().push(s[0]));
        assert(insert_ranked(s, r).to_multiset() =~= s.to_multiset().insert(r));
    } else {
        vstd::seq_lib::lemma_multiset_commutative(seq![r], s);
        assert(seq![r] =~= Seq::<SpecRecord>::empty().push(r));
        assert((seq![r] + s).to_multiset() =~= s.to_multiset().insert(r));
    }
}

/// Law: the ranked order of a record list is ascending by total time and is
/// a permutation of the list.
pub proof fn lemma_ranked_sorted(s: Seq<SpecRecord>)
    ensures
        ranked_order(ranked(s)),
        ranked(s).to_multiset() == s.to_multiset(),
        ranked(s).len() == s.len(),
    decreases s.len(),
{
    broadcast use vstd::seq_lib::group_to_multiset_ensures;

    if s.len() > 0 {
        lemma_ranked_sorted(s.drop_last());
        lemma_insert_ranked_sorted(ranked(s.drop_last()), s.last());
        lemma_insert_ranked_multiset(ranked(s.drop_last()), s.last());
        assert(s.drop_last().push(s.last()) =~= s);
        assert(ranked(s).to_multiset() =~= s.to_multiset());
    }
}

/// Inserting at the first strictly-slower position is what `insert_ranked`
/// denotes, whatever the rest of the list looks like.
proof fn lemma_insert_ranked_at(s: Seq<SpecRecord>, r: SpecRecord, pos: int)
    requires
        0 <= pos <= s.len(),
        forall|k: int| 0 <= k < pos ==> s[k].time_ms <= r.time_ms,
        pos < s.len() ==> s[pos].time_ms > r.time_ms,
    ensures
        insert_ranked(s, r) == s.subrange(0, pos) + seq![r] + s.skip(pos),
    decreases pos,
{
    if pos == 0 {
        if s.len() == 0 {
            assert(insert_ranked(s, r) =~= s.subrange(0, 0) + seq![r] + s.skip(0));
        } else {
            assert(insert_ranked(s, r) =~= s.subrange(0, 0) + seq![r] + s.skip(0));
        }
    } else {
        assert(forall|k: int| 0 <= k < pos - 1 ==> s.skip(1)[k] == s[k + 1]);
        lemma_insert_ranked_at(s.skip(1), r, pos - 1);
        assert(insert_ranked(s, r) =~= s.subrange(0, pos) + seq![r] + s.skip(pos)) by {
            assert(s.skip(1).subrange(0, pos - 1) =~= s.subrange(1, pos));
            assert(s.skip(1).skip(pos - 1) =~= s.skip(pos));
        }
    }
}

// --- executable layer ----------------------------------------------------------

fn string_eq(a: &String, b: &String) -> (r: bool)
    ensures
        r == (a@ == b@),
{
    a.eq(b)
}

/// The index of the first category carrying `slug`, if any.
pub fn find_category(cats: &Vec<Category>, slug: &String) -> (r: Option<usize>)
    ensures
        match r {
            Some(i) => first_category_at(category_views(cats@), slug@, i as int),
            None => forall|k: int|
                0 <= k < cats@.len() ==> category_views(cats@)[k].slug != slug@,
        },
{
    let mut i: usize = 0;
    while i < cats.len()
        invariant
            i <= cats@.len(),
            forall|k: int| 0 <= k < i ==> category_views(cats@)[k].slug != slug@,
        decreases cats@.len() - i,
    {
        if string_eq(&cats[i].slug, slug) {
            return Some(i);
        }
        i += 1;
    }
    None
}

/// The index of the first cup carrying `slug`, if any.
pub fn find_cup(cups: &Vec<Cup>, slug: &String) -> (r: Option<usize>)
    ensures
        match r {
            Some(i) => first_cup_at(cup_views(cups@), slug@, i as int),
            None => forall|k: int| 0 <= k < cups@.len() ==> cup_views(cups@)[k].slug != slug@,
        },
{
    let mut i: usize = 0;
    while i < cups.len()
        invariant
            i <= cups@.len(),
            forall|k: int| 0 <= k < i ==> cup_views(cups@)[k].slug != slug@,
        decreases cups@.len() - i,
    {
        if string_eq(&cups[i].slug, slug) {
            return Some(i);
        }
        i += 1;
    }
    None
}

/// The index of the first track carrying `slug`, if any.
pub fn find_track(tracks: &Vec<Track>, slug: &String) -> (r: Option<usize>)
    ensures
        match r {
            Some(i) => first_track_at(track_views(tracks@), slug@, i as int),
            None => forall|k: int|
                0 <= k < tracks@.len() ==> track_views(tracks@)[k].slug != slug@,
        },
{
    let mut i: usize = 0;
    while i < tracks.len()
        invariant
            i <= tracks@.len(),
            forall|k: int| 0 <= k < i ==> track_views(tracks@)[k].slug != slug@,
        decreases tracks@.len() - i,
    {
        if string_eq(&tracks[i].slug, slug) {
            return Some(i);
        }
        i += 1;
    }
    None
}

/// The tracks of one cup, copied out in row order.
pub fn tracks_in_cup(tracks: &Vec<Track>, cup_id: u64) -> (r: Vec<Track>)
    ensures
        track_views(r@) == cup_tracks(track_views(tracks@), cup_id),
{
    let ghost tv = track_views(tracks@);
    let mut out: Vec<Track> = Vec::new();
    let mut i: usize = 0;
    while i < tracks.len()
        invariant
            i <= tracks@.len(),
            tv == track_views(tracks@),
            track_views(out@) == cup_tracks(tv.take(i as int), cup_id),
        decreases tracks@.len() - i,
    {
        proof {
            assert(tv.take(i as int + 1).drop_last() =~= tv.take(i as int));
            assert(tv.take(i as int + 1).last() == tv[i as int]);
            assert(cup_tracks(tv.take(i as int + 1), cup_id) == (if tv[i as int].cup_id == cup_id {
                cup_tracks(tv.take(i as int), cup_id).push(tv[i as int])
            } else {
                cup_tracks(tv.take(i as int), cup_id)
            }));
        }
        let ghost ov = track_views(out@);
        let t = &tracks[i];
        if t.cup_id == cup_id {
            out.push(t.duplicate());
            proof {
                assert(track_views(out@) =~= ov.push(tv[i as int]));
            }
        }
        i += 1;
    }
    proof {
        assert(tv.take(tracks@.len() as int) =~= tv);
    }
    out
}

/// The records of one track, category and record type, copied out in row
/// order.
pub fn records_matching(
    records: &Vec<Record>,
    track_id: u64,
    category_id: u64,
    flap: bool,
) -> (r: Vec<Record>)
    ensures
        record_views(r@) == matching_records(record_views(records@), track_id, category_id, flap),
{
    let ghost rv = record_views(records@);
    let mut out: Vec<Record> = Vec::new();
    let mut i: usize = 0;
    while i < records.len()
        invariant
            i <= records@.len(),
            rv == record_views(records@),
            record_views(out@) == matching_records(rv.take(i as int), track_id, category_id, flap),
        decreases records@.len() - i,
    {
        proof {
            assert(rv.take(i as int + 1).drop_last() =~= rv.take(i as int));
            assert(rv.take(i as int + 1).last() == rv[i as int]);
            assert(matching_records(rv.take(i as int + 1), track_id, category_id, flap) == (if
                rv[i as int].track_id == track_id && rv[i as int].category_id == category_id
                && rv[i as int].flap == flap {
                matching_records(rv.take(i as int), track_id, category_id, flap).push(rv[i as int])
            } else {
                matching_records(rv.take(i as int), track_id, category_id, flap)
            }));
        }
        let ghost ov = record_views(out@);
        let rec = &records[i];
        if rec.track_id == track_id && rec.category_id == category_id && rec.flap == flap {
            out.push(rec.duplicate());
            proof {
                assert(record_views(out@) =~= ov.push(rv[i as int]));
            }
        }
        i += 1;
    }
    proof {
        assert(rv.take(records@.len() as int) =~= rv);
    }
    out
}

/// The first position whose record is strictly slower than `time_ms`.
fn insert_pos(out: &Vec<Record>, time_ms: u64) -> (pos: usize)
    ensures
        pos <= out@.len(),
        forall|k: int| 0 <= k < pos ==> record_views(out@)[k].time_ms <= time_ms,
        pos < out@.len() ==> record_views(out@)[pos as int].time_ms > time_ms,
{
    let mut pos: usize = 0;
    while pos < out.len()
        invariant
            pos <= out@.len(),
            forall|k: int| 0 <= k < pos ==> record_views(out@)[k].time_ms <= time_ms,
        decreases out@.len() - pos,
    {
        if out[pos].time_ms > time_ms {
            return pos;
        }
        pos += 1;
    }
    pos
}

/// Rank a record list: ascending by total time, ties kept in input order.
pub fn rank_records(records: &Vec<Record>) -> (r: Vec<Record>)
    ensures
        record_views(r@) == ranked(record_views(records@)),
{
    let ghost rv = record_views(records@);
    let mut out: Vec<Record> = Vec::new();
    let mut i: usize = 0;
    while i < records.len()
        invariant
            i <= records@.len(),
            rv == record_views(records@),
            record_views(out@) == ranked(rv.take(i as int)),
        decreases records@.len() - i,
    {
        let rec = &records[i];
        let pos = insert_pos(&out, rec.time_ms);
        let ghost ov = record_views(out@);
        out.insert(pos, rec.duplicate());
        proof {
            lemma_insert_ranked_at(ov, rv[i as int], pos as int);
            assert(record_views(out@) =~= insert_ranked(ov, rv[i as int]));
            assert(rv.take(i as int + 1).drop_last() =~= rv.take(i as int));
            assert(rv.take(i as int + 1).last() == rv[i as int]);
        }
        i += 1;
    }
    proof {
        assert(rv.take(records@.len() as int) =~= rv);
    }
    out
}

/// The leaderboard aggregator: resolve a record-type token (`flap` for
/// single-fastest-lap records, `3lap` for full sessions), a category slug and
/// a cup slug, and return one ranked board per track of the cup, in the cup's
/// track order, empty boards included. An unknown record type is a
/// `BadRequest`; an unresolved slug is a client-facing `NotFound`.
pub fn cup_leaderboard(
    db: &StoreSnapshot,
    record_type: &String,
    category_slug: &String,
    cup_slug: &String,
) -> (r: Result<Vec<TrackLeaderboard>, ApiError>)
    ensures
        match r {
            Ok(lbs) => (record_type@ == "flap"@ || record_type@ == "3lap"@) && exists|
                ci: int,
                ui: int,
            |
                first_category_at(category_views(db.categories@), category_slug@, ci)
                    && first_cup_at(cup_views(db.cups@), cup_slug@, ui) && boards_ok(
                    track_views(db.tracks@),
                    record_views(db.records@),
                    cup_views(db.cups@)[ui].id,
                    category_views(db.categories@)[ci].id,
                    record_type@ == "flap"@,
                    lbs@,
                ),
            Err(e) => (e is BadRequest && record_type@ != "flap"@ && record_type@ != "3lap"@) || (
            e is NotFound && (record_type@ == "flap"@ || record_type@ == "3lap"@) && ((forall|
                k: int,
            |
                0 <= k < db.categories@.len() ==> category_views(db.categories@)[k].slug
                    != category_slug@) || (forall|k: int|
                0 <= k < db.cups@.len() ==> cup_views(db.cups@)[k].slug != cup_slug@))),
        },
{
    let flap: bool;
    if string_eq(record_type, &"flap".to_owned()) {
        flap = true;
    } else if string_eq(record_type, &"3lap".to_owned()) {
        flap = false;
    } else {
        return Err(ApiError::BadRequest("Invalid record type".to_owned()));
    }
    let ci = match find_category(&db.categories, category_slug) {
        Some(i) => i,
        None => {
            return Err(ApiError::NotFound("Category not found".to_owned()));
        },
    };
    let ui = match find_cup(&db.cups, cup_slug) {
        Some(i) => i,
        None => {
            return Err(ApiError::NotFound("Cup not found".to_owned()));
        },
    };
    let category_id = db.categories[ci].id;
    let cup_id = db.cups[ui].id;
    let tracks = tracks_in_cup(&db.tracks, cup_id);
    let mut lbs: Vec<TrackLeaderboard> = Vec::new();
    let mut k: usize = 0;
    while k < tracks.len()
        invariant
            k <= tracks@.len(),
            track_views(tracks@) == cup_tracks(track_views(db.tracks@), cup_id),
            lbs@.len() == k,
            forall|m: int|
                0 <= m < k ==> (#[trigger] lbs@[m]).track@ == track_views(tracks@)[m]
                    && record_views(lbs@[m].records@) == ranked(
                    matching_records(
                        record_views(db.records@),
                        track_views(tracks@)[m].id,
                        category_id,
                        flap,
                    ),
                ),
        decreases tracks@.len() - k,
    {
        let t = &tracks[k];
        let matches = records_matching(&db.records, t.id, category_id, flap);
        let board = rank_records(&matches);
        lbs.push(TrackLeaderboard { track: t.duplicate(), records: board });
        k += 1;
    }
    proof {
        assert(first_category_at(category_views(db.categories@), category_slug@, ci as int)
            && first_cup_at(cup_views(db.cups@), cup_slug@, ui as int) && boards_ok(
            track_views(db.tracks@),
            record_views(db.records@),
            cup_views(db.cups@)[ui as int].id,
            category_views(db.categories@)[ci as int].id,
            flap,
            lbs@,
        ));
    }
    Ok(lbs)
}

} // verus!
