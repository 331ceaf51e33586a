//! Data model: accounts, the track/category/cup taxonomy, lap-time records,
//! and the transient identity values derived from a verified token.
//!
//! Each type that carries strings has a ghost mirror over `Seq<char>` so that
//! contracts can speak of the mathematical value of a row.

use vstd::prelude::*;

verus! {

/// The two account roles the service distinguishes.
#[derive(Clone, Copy, PartialEq, Eq, Structural, Debug)]
pub enum Role {
    User,
    Admin,
}

/// The signed payload inside a token: subject id, role, expiry instant
/// (seconds since the epoch).
#[derive(Clone, Copy, PartialEq, Eq, Structural, Debug)]
pub struct Claims {
    pub sub: u64,
    pub role: Role,
    pub exp: u64,
}

/// Request-scoped identity derived from a verified token; never persisted.
#[derive(Clone, Copy, PartialEq, Eq, Structural, Debug)]
pub struct AuthenticatedUser {
    pub id: u64,
    pub role: Role,
}

/// A signup or login payload: the display name and the password it is to be
/// checked or enrolled under.
#[derive(Debug)]
pub struct CreateUserRequest {
    pub username: String,
    pub password: String,
}

/// An account row as handed out by the store (the credential hash is never
/// part of this projection).
#[derive(Debug)]
pub struct User {
    pub id: u64,
    pub username: String,
    pub created_at: String,
}

pub ghost struct SpecUser {
    pub id: u64,
    pub username: Seq<char>,
    pub created_at: Seq<char>,
}

impl View for User {
    type V = SpecUser;

    open spec fn view(&self) -> SpecUser {
        SpecUser { id: self.id, username: self.username@, created_at: self.created_at@ }
    }
}

impl DeepView for User {
    type V = SpecUser;

    open spec fn deep_view(&self) -> SpecUser {
        self@
    }
}

/// A competition ruleset/division under which records are compared.
#[derive(Debug)]
pub struct Category {
    pub id: u64,
    pub slug: String,
    pub name: String,
}

pub ghost struct SpecCategory {
    pub id: u64,
    pub slug: Seq<char>,
    pub name: Seq<char>,
}

impl View for Category {
    type V = SpecCategory;

    open spec fn view(&self) -> SpecCategory {
        SpecCategory { id: self.id, slug: self.slug@, name: self.name@ }
    }
}

impl DeepView for Category {
    type V = SpecCategory;

    open spec fn deep_view(&self) -> SpecCategory {
        self@
    }
}

/// A named grouping of tracks.
#[derive(Debug)]
pub struct Cup {
    pub id: u64,
    pub slug: String,
    pub name: String,
}

pub ghost struct SpecCup {
    pub id: u64,
    pub slug: Seq<char>,
    pub name: Seq<char>,
}

impl View for Cup {
    type V = SpecCup;

    open spec fn view(&self) -> SpecCup {
        SpecCup { id: self.id, slug: self.slug@, name: self.name@ }
    }
}

impl DeepView for Cup {
    type V = SpecCup;

    open spec fn deep_view(&self) -> SpecCup {
        self@
    }
}

/// One track, owned by a cup.
#[derive(Debug)]
pub struct Track {
    pub id: u64,
    pub cup_id: u64,
    pub slug: String,
    pub name: String,
}

pub ghost struct SpecTrack {
    pub id: u64,
    pub cup_id: u64,
    pub slug: Seq<char>,
    pub name: Seq<char>,
}

impl View for Track {
    type V = SpecTrack;

    open spec fn view(&self) -> SpecTrack {
        SpecTrack { id: self.id, cup_id: self.cup_id, slug: self.slug@, name: self.name@ }
    }
}

impl DeepView for Track {
    type V = SpecTrack;

    open spec fn deep_view(&self) -> SpecTrack {
        self@
    }
}

/// A submitted lap-time record. The total time is the ranking key; the three
/// per-lap times are informational and may be partially absent.
#[derive(Debug)]
pub struct Record {
    pub id: u64,
    pub account_id: u64,
    pub track_id: u64,
    pub category_id: u64,
    pub flap: bool,
    pub lap1: Option<u64>,
    pub lap2: Option<u64>,
    pub lap3: Option<u64>,
    pub time_ms: u64,
    pub proof_url: Option<String>,
    pub submitted_at: String,
}

pub ghost struct SpecRecord {
    pub id: u64,
    pub account_id: u64,
    pub track_id: u64,
    pub category_id: u64,
    pub flap: bool,
    pub lap1: Option<u64>,
    pub lap2: Option<u64>,
    pub lap3: Option<u64>,
    pub time_ms: u64,
    pub proof_url: Option<Seq<char>>,
    pub submitted_at: Seq<char>,
}

impl View for Record {
    type V = SpecRecord;

    open spec fn view(&self) -> SpecRecord {
        SpecRecord {
            id: self.id,
            account_id: self.account_id,
            track_id: self.track_id,
            category_id: self.category_id,
            flap: self.flap,
            lap1: self.lap1,
            lap2: self.lap2,
            lap3: self.lap3,
            time_ms: self.time_ms,
            proof_url: self.proof_url.deep_view(),
            submitted_at: self.submitted_at@,
        }
    }
}

impl DeepView for Record {
    type V = SpecRecord;

    open spec fn deep_view(&self) -> SpecRecord {
        self@
    }
}

impl Track {
    /// A field-for-field copy with the same mathematical value.
    pub fn duplicate(&self) -> (r: Track)
        ensures
            r@ == self@,
    {
        Track {
            id: self.id,
            cup_id: self.cup_id,
            slug: self.slug.clone(),
            name: self.name.clone(),
        }
    }
}

impl Record {
    /// A field-for-field copy with the same mathematical value.
    pub fn duplicate(&self) -> (r: Record)
        ensures
            r@ == self@,
    {
        let proof_url = match &self.proof_url {
            Some(p) => Some(p.clone()),
            None => None,
        };
        Record {
            id: self.id,
            account_id: self.account_id,
            track_id: self.track_id,
            category_id: self.category_id,
            flap: self.flap,
            lap1: self.lap1,
            lap2: self.lap2,
            lap3: self.lap3,
            time_ms: self.time_ms,
            proof_url,
            submitted_at: self.submitted_at.clone(),
        }
    }
}

} // verus!
