//! Record submission: validate a payload against the resolved track and
//! category, and attribute the new row to an identity the caller never
//! chooses through the payload — either the authenticated caller's own id or,
//! on the admin path, the id given in the route.

use vstd::prelude::*;
use crate::leaderboard::{
    category_views, find_category, find_track, first_category_at, first_track_at, track_views,
};
use crate::model::{AuthenticatedUser, Category, Track};
use crate::response::ApiError;

verus! {

/// A record payload as submitted: slugs for the track and category, the
/// record-type flag, up to three optional lap times, the total time that
/// ranks the record, and an optional proof reference. It carries no identity
/// field: attribution is never the submitter's choice.
#[derive(Debug)]
pub struct NewRecordRequest {
    pub track_slug: String,
    pub category_slug: String,
    pub flap: bool,
    pub lap1: Option<u64>,
    pub lap2: Option<u64>,
    pub lap3: Option<u64>,
    pub time_ms: u64,
    pub proof_url: Option<String>,
}

/// A validated row ready for insertion: resolved ids in place of slugs, and
/// the attributed account.
#[derive(Debug)]
pub struct NewRecord {
    pub account_id: u64,
    pub track_id: u64,
    pub category_id: u64,
    pub flap: bool,
    pub lap1: Option<u64>,
    pub lap2: Option<u64>,
    pub lap3: Option<u64>,
    pub time_ms: u64,
    pub proof_url: Option<String>,
}

/// The row is the payload validated against the taxonomy and attributed to
/// `account_id`: both slugs resolve (to the first carrier of each), the ids
/// are theirs, and every other field is taken from the payload as provided.
pub open spec fn valid_submission(
    tracks: Seq<Track>,
    categories: Seq<Category>,
    payload: NewRecordRequest,
    account_id: u64,
    row: NewRecord,
) -> bool {
    &&& exists|ti: int|
        first_track_at(track_views(tracks), payload.track_slug@, ti) && row.track_id
            == track_views(tracks)[ti].id
    &&& exists|ci: int|
        first_category_at(category_views(categories), payload.category_slug@, ci)
            && row.category_id == category_views(categories)[ci].id
    &&& row.account_id == account_id
    &&& row.flap == payload.flap
    &&& row.lap1 == payload.lap1
    &&& row.lap2 == payload.lap2
    &&& row.lap3 == payload.lap3
    &&& row.time_ms == payload.time_ms
    &&& row.proof_url.deep_view() == payload.proof_url.deep_view()
}

/// A submission is turned away exactly when a slug resolves to nothing, and
/// then as a client-facing `NotFound`.
pub open spec fn submission_rejected(
    tracks: Seq<Track>,
    categories: Seq<Category>,
    payload: NewRecordRequest,
    e: ApiError,
) -> bool {
    &&& e is NotFound
    &&& {
        ||| forall|k: int|
            0 <= k < tracks.len() ==> track_views(tracks)[k].slug != payload.track_slug@
        ||| forall|k: int|
            0 <= k < categories.len() ==> category_views(categories)[k].slug
                != payload.category_slug@
    }
}

/// The shared core of both submission paths: resolve the slugs, keep every
/// other field as provided, attribute the row to `account_id`.
pub fn prepare_submission(
    tracks: &Vec<Track>,
    categories: &Vec<Category>,
    payload: &NewRecordRequest,
    account_id: u64,
) -> (r: Result<NewRecord, ApiError>)
    ensures
        match r {
            Ok(row) => valid_submission(tracks@, categories@, *payload, account_id, row),
            Err(e) => submission_rejected(tracks@, categories@, *payload, e),
        },
{
    let ti = match find_track(tracks, &payload.track_slug) {
        Some(i) => i,
        None => {
            return Err(ApiError::NotFound("Track not found".to_owned()));
        },
    };
    let ci = match find_category(categories, &payload.category_slug) {
        Some(i) => i,
        None => {
            return Err(ApiError::NotFound("Category not found".to_owned()));
        },
    };
    let proof_url = match &payload.proof_url {
        Some(p) => Some(p.clone()),
        None => None,
    };
    Ok(
        NewRecord {
            account_id,
            track_id: tracks[ti].id,
            category_id: categories[ci].id,
            flap: payload.flap,
            lap1: payload.lap1,
            lap2: payload.lap2,
            lap3: payload.lap3,
            time_ms: payload.time_ms,
            proof_url,
        },
    )
}

/// Self-submission: the inserted record is attributed to the caller's
/// authenticated identity, whatever the payload carries.
pub fn submit_record_self(
    tracks: &Vec<Track>,
    categories: &Vec<Category>,
    payload: &NewRecordRequest,
    auth: &AuthenticatedUser,
) -> (r: Result<NewRecord, ApiError>)
    ensures
        match r {
            Ok(row) => valid_submission(tracks@, categories@, *payload, auth.id, row),
            Err(e) => submission_rejected(tracks@, categories@, *payload, e),
        },
{
    prepare_submission(tracks, categories, payload, auth.id)
}

/// Admin submission: the inserted record is attributed to the account id
/// named in the route, regardless of the admin's own identity.
pub fn submit_record_as(
    tracks: &Vec<Track>,
    categories: &Vec<Category>,
    payload: &NewRecordRequest,
    target_account_id: u64,
) -> (r: Result<NewRecord, ApiError>)
    ensures
        match r {
            Ok(row) => valid_submission(tracks@, categories@, *payload, target_account_id, row),
            Err(e) => submission_rejected(tracks@, categories@, *payload, e),
        },
{
    prepare_submission(tracks, categories, payload, target_account_id)
}

} // verus!
