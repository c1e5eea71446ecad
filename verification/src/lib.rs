//! Verified core of an academy management application: calendar arithmetic,
//! attendance planning, billing rules, schedule placement rules, credential
//! handling rules and the small policies around backups, audit codes, code
//! tables, self-diagnosis, make-up expiry and the database connection.

pub mod text;
pub mod error;
pub mod civil;
pub mod attendance;
pub mod changes;
pub mod grid;
pub mod generation;
pub mod academic;
pub mod billing;
pub mod dashboard;
pub mod auth;
pub mod backup;
pub mod codes;
pub mod audit;
pub mod diagnosis;
pub mod calendar;
pub mod expiration;
pub mod db;
