//! Decision logic of an ActivityWatch notification service.

pub mod agent;
pub mod alert;
pub mod category;
pub mod category_laws;
pub mod client;
pub mod config;
pub mod hourly;
pub mod table;
pub mod logs;
pub mod monitor;
pub mod output;
pub mod query;
pub mod summary;
pub mod text;
