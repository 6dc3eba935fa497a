//! Decision logic of a desktop wallpaper rotator: configuration checks,
//! interval arithmetic, request and file naming, and the run schedule.

pub mod amount;
pub mod change;
pub mod config;
pub mod error;
pub mod interval;
pub mod report;
pub mod request;
pub mod schedule;
pub mod text;
pub mod unit;
