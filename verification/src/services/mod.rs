//! The engine split by concern: tasks, projects and users each kept by a
//! service of their own.

pub mod task_service;
pub mod project_service;
pub mod user_service;
pub mod facade;
