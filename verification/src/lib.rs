//! A disk-usage explorer core: scan entries are classified by path
//! heuristics, aggregated into an in-memory store with running totals,
//! grouped into cleanup recommendations, and removed through a confirmed
//! deletion flow that keeps the store consistent.

pub mod application;
pub mod dashboard;
pub mod docker_report;
pub mod entities;
pub mod heuristics;
pub mod laws;
pub mod ordering;
pub mod ports;
pub mod sums;
pub mod textutil;
