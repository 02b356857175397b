//! Task management core: tasks, projects, users, status workflow, filtering
//! and project statistics, with the behaviour of every operation stated as a
//! Verus contract.

pub mod domain;
pub mod text;
pub mod ids;
pub mod clock;
pub mod table;
pub mod query;
pub mod stats;
pub mod deletion;
pub mod engine;
pub mod analytics;
pub mod notifications;
pub mod services;
pub mod storage;
pub mod scaffold;
