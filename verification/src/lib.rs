//! A CPU scheduler that shares time fairly: between control groups by their shares, and between
//! the tasks of a group by their weights.

pub mod accounting;
pub mod config;
pub mod costs;
pub mod effects;
pub mod event;
pub mod event_laws;
pub mod framing;
pub mod homes;
pub mod idmap;
pub mod json;
pub mod laws;
pub mod model;
pub mod number;
pub mod picking;
pub mod placing;
pub mod queue;
pub mod reading;
pub mod ready;
pub mod report;
pub mod scheduler;
pub mod search;
pub mod state;
pub mod text;
pub mod tick;
