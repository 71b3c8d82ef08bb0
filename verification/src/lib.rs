//! On-call escalation data for an incident-management account: the join of
//! policies, on-call assignments, users and services into per-policy
//! escalation levels, and the renderings of that data as a tree, as JSON
//! rows, as CSV rows and as a name-to-id export.

pub mod text;
pub mod output;
pub mod v2;
pub mod filter;
pub mod report;
