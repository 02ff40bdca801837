//! Verified core of a coordination-hours planner for vocational schools:
//! text rules, teaching-load pool arithmetic, board assembly and the
//! validation rules applied at the boundary.

pub mod text;
pub mod decimal;
pub mod error;
pub mod model;
pub mod teachers;
pub mod teaching_load;
pub mod sorting;
pub mod ordered;
pub mod hours;
pub mod assignment;
pub mod settings;
pub mod files;
pub mod students;
pub mod companies;
pub mod users;
pub mod history;
pub mod terms;
pub mod availability;
pub mod dashboard;
pub mod read_at;
pub mod board;
