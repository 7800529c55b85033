pub mod commands;
pub mod datetime;
pub mod errors;
pub mod fabrik;
pub mod gtfs_columns;
pub mod gtfs_files;
pub mod raptor;
pub mod text;
pub mod gtfs_types;
pub mod osm_types;
pub mod osm_files;
pub mod paths;
