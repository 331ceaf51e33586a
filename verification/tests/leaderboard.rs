use timetrial::leaderboard::{cup_leaderboard, StoreSnapshot};
use timetrial::model::{Category, Cup, Record, Track};

fn category(id: u64, slug: &str) -> Category {
    Category { id, slug: slug.to_string(), name: slug.to_uppercase() }
}

fn cup(id: u64, slug: &str) -> Cup {
    Cup { id, slug: slug.to_string(), name: slug.to_uppercase() }
}

fn track(id: u64, cup_id: u64, slug: &str) -> Track {
    Track { id, cup_id, slug: slug.to_string(), name: slug.to_uppercase() }
}

fn record(id: u64, track_id: u64, category_id: u64, flap: bool, time_ms: u64) -> Record {
    Record {
        id,
        account_id: 1,
        track_id,
        category_id,
        flap,
        lap1: None,
        lap2: None,
        lap3: None,
        time_ms,
        proof_url: None,
        submitted_at: String::new(),
    }
}

fn snapshot() -> StoreSnapshot {
    StoreSnapshot {
        categories: vec![category(1, "150cc"), category(2, "200cc")],
        cups: vec![cup(1, "mushroom"), cup(2, "flower")],
        tracks: vec![track(1, 1, "circuit"), track(2, 1, "desert"), track(3, 2, "canyon")],
        records: vec![
            record(10, 1, 1, true, 500),
            record(11, 1, 1, true, 200),
            record(12, 1, 1, true, 900),
            record(13, 1, 1, false, 111),
            record(14, 1, 2, true, 222),
            record(15, 3, 1, true, 333),
        ],
    }
}

#[test]
fn leaderboard_is_ranked_ascending_by_total_time() {
    let db = snapshot();
    let boards = cup_leaderboard(
        &db,
        &"flap".to_string(),
        &"150cc".to_string(),
        &"mushroom".to_string(),
    )
    .expect("everything resolves");
    assert_eq!(boards.len(), 2);
    let times: Vec<u64> = boards[0].records.iter().map(|r| r.time_ms).collect();
    assert_eq!(times, vec![200, 500, 900]);
}

#[test]
fn other_record_type_on_same_track_is_empty() {
    let db = snapshot();
    let boards = cup_leaderboard(
        &db,
        &"3lap".to_string(),
        &"150cc".to_string(),
        &"mushroom".to_string(),
    )
    .expect("everything resolves");
    // Only record 13 is a full-session time on this track.
    let times: Vec<u64> = boards[0].records.iter().map(|r| r.time_ms).collect();
    assert_eq!(times, vec![111]);
    let db2 = StoreSnapshot { records: vec![db.records[0].duplicate()], ..snapshot() };
    let boards2 = cup_leaderboard(
        &db2,
        &"3lap".to_string(),
        &"150cc".to_string(),
        &"mushroom".to_string(),
    )
    .expect("everything resolves");
    assert!(boards2[0].records.is_empty());
}

#[test]
fn one_board_per_cup_track_in_order_even_when_empty() {
    let db = snapshot();
    let boards = cup_leaderboard(
        &db,
        &"flap".to_string(),
        &"150cc".to_string(),
        &"mushroom".to_string(),
    )
    .expect("everything resolves");
    assert_eq!(boards.len(), 2);
    assert_eq!(boards[0].track.slug, "circuit");
    assert_eq!(boards[1].track.slug, "desert");
    assert!(boards[1].records.is_empty(), "a track without records still gets a board");
}

#[test]
fn leaderboard_scopes_by_category_and_cup() {
    let db = snapshot();
    let boards = cup_leaderboard(
        &db,
        &"flap".to_string(),
        &"150cc".to_string(),
        &"flower".to_string(),
    )
    .expect("everything resolves");
    assert_eq!(boards.len(), 1);
    assert_eq!(boards[0].track.slug, "canyon");
    let times: Vec<u64> = boards[0].records.iter().map(|r| r.time_ms).collect();
    assert_eq!(times, vec![333]);
}

#[test]
fn ties_keep_row_order() {
    let mut db = snapshot();
    db.records = vec![
        record(20, 1, 1, true, 300),
        record(21, 1, 1, true, 300),
        record(22, 1, 1, true, 100),
    ];
    let boards = cup_leaderboard(
        &db,
        &"flap".to_string(),
        &"150cc".to_string(),
        &"mushroom".to_string(),
    )
    .unwrap();
    let ids: Vec<u64> = boards[0].records.iter().map(|r| r.id).collect();
    assert_eq!(ids, vec![22, 20, 21], "equal times stay in insertion order");
}

#[test]
fn unknown_category_slug_is_not_found() {
    let db = snapshot();
    let e = cup_leaderboard(
        &db,
        &"flap".to_string(),
        &"50cc".to_string(),
        &"mushroom".to_string(),
    )
    .expect_err("no such category");
    assert_eq!(e.status_code(), 404, "NotFound, not Internal");
}

#[test]
fn unknown_cup_slug_is_not_found() {
    let db = snapshot();
    let e = cup_leaderboard(
        &db,
        &"flap".to_string(),
        &"150cc".to_string(),
        &"star".to_string(),
    )
    .expect_err("no such cup");
    assert_eq!(e.status_code(), 404, "NotFound, not Internal");
}

#[test]
fn unknown_record_type_is_bad_request() {
    let db = snapshot();
    let e = cup_leaderboard(
        &db,
        &"2lap".to_string(),
        &"150cc".to_string(),
        &"mushroom".to_string(),
    )
    .expect_err("record type must be flap or 3lap");
    assert_eq!(e.status_code(), 400);
}
