pub mod text;
pub mod display_names;
pub mod scan_coordinator;
pub mod file_identity;
pub mod scanner;
pub mod drive_discovery;
pub mod reconnect;
pub mod startup;
pub mod json;
pub mod highlight_log_parser;
pub mod leveldb_reader;
pub mod metadata;
pub mod metadata_ingest;
pub mod thumbnails;
pub mod sources;

