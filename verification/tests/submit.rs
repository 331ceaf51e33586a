use timetrial::model::{AuthenticatedUser, Category, Role, Track};
use timetrial::submit::{submit_record_as, submit_record_self, NewRecordRequest};

fn taxonomy() -> (Vec<Track>, Vec<Category>) {
    let tracks = vec![
        Track { id: 5, cup_id: 1, slug: "circuit".to_string(), name: "Circuit".to_string() },
        Track { id: 6, cup_id: 1, slug: "desert".to_string(), name: "Desert".to_string() },
    ];
    let categories = vec![Category {
        id: 3,
        slug: "150cc".to_string(),
        name: "150cc".to_string(),
    }];
    (tracks, categories)
}

fn payload() -> NewRecordRequest {
    NewRecordRequest {
        track_slug: "desert".to_string(),
        category_slug: "150cc".to_string(),
        flap: true,
        lap1: Some(100),
        lap2: None,
        lap3: None,
        time_ms: 300,
        proof_url: Some("https://example.test/run".to_string()),
    }
}

#[test]
fn self_submission_is_attributed_to_the_callers_identity() {
    let (tracks, categories) = taxonomy();
    let auth = AuthenticatedUser { id: 42, role: Role::User };
    let row = submit_record_self(&tracks, &categories, &payload(), &auth).unwrap();
    assert_eq!(row.account_id, 42, "the payload carries no identity; the token does");
    assert_eq!(row.track_id, 6);
    assert_eq!(row.category_id, 3);
    assert_eq!(row.flap, true);
    assert_eq!(row.lap1, Some(100));
    assert_eq!(row.time_ms, 300);
    assert_eq!(row.proof_url.as_deref(), Some("https://example.test/run"));
}

#[test]
fn admin_submission_is_attributed_to_the_path_id() {
    let (tracks, categories) = taxonomy();
    let row = submit_record_as(&tracks, &categories, &payload(), 7).unwrap();
    assert_eq!(row.account_id, 7, "attributed to the path id, not the admin");
}

#[test]
fn submission_with_unknown_track_slug_is_not_found() {
    let (tracks, categories) = taxonomy();
    let mut p = payload();
    p.track_slug = "rainbow".to_string();
    let e = submit_record_as(&tracks, &categories, &p, 7).unwrap_err();
    assert_eq!(e.status_code(), 404);
}

#[test]
fn submission_with_unknown_category_slug_is_not_found() {
    let (tracks, categories) = taxonomy();
    let mut p = payload();
    p.category_slug = "50cc".to_string();
    let e = submit_record_as(&tracks, &categories, &p, 7).unwrap_err();
    assert_eq!(e.status_code(), 404);
}

#[test]
fn lap_times_are_not_cross_validated_against_the_total() {
    // Accepted current behavior: the core does not check lap1+lap2+lap3
    // against time_ms.
    let (tracks, categories) = taxonomy();
    let mut p = payload();
    p.lap1 = Some(1);
    p.lap2 = Some(2);
    p.lap3 = Some(3);
    p.time_ms = 999_999;
    assert!(submit_record_as(&tracks, &categories, &p, 7).is_ok());
}
