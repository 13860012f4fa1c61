//! Domain logic of a tennis-league service: the league standings table,
//! match results, round-robin fixtures, account rules and configuration.

pub mod accounts;
pub mod config;
pub mod fixtures;
pub mod session;
pub mod standings;
