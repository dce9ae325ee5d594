//! One model (and controller) per tab.
pub mod dashboard;
pub mod env;
pub mod logs;
pub mod projects;
pub mod wrap;
