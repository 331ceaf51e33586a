//! Core of a racing time-trial leaderboard service: password credentials,
//! signed bearer tokens, role-gated request authentication, and the
//! leaderboard aggregation and record-submission rules.
//!
//! Everything here is verified; the surrounding process (HTTP transport,
//! relational store, clock) hands in plain values and takes plain values back.

pub mod auth;
pub mod codec;
pub mod credential;
pub mod leaderboard;
pub mod model;
pub mod response;
pub mod submit;
pub mod token;
