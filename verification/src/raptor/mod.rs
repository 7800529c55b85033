pub mod api;
pub mod cache;
pub mod checks;
pub mod tables;
pub mod types;
pub mod feed;
pub mod ids;
pub mod loader;
pub mod mcraptor;
pub mod routes;
pub mod timetable;
pub mod state;
pub mod handler;
pub mod simple;
pub mod reach;
