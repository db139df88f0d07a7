//! Detection of sequential scans in query plans.
//!
//! The library walks a statement's execution plan, finds every full
//! (sequential) table scan, filters the scanned tables against a layered
//! include/exclude policy and decides whether the statement must be
//! reported, and at which severity.

pub mod text;
pub mod config;
pub mod catalog;
pub mod plan;
pub mod hooks;
pub mod report;
pub mod laws;
