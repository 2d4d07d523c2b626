//! The command-source layer of a rendering service: picks one source of render
//! jobs (a coordinator connection, a batch file, or a test-fixture file) and
//! decides, event by event, what each source does.
pub mod config;
pub mod file_source;
pub mod worker;
pub mod callback;
pub mod report;
pub mod ordered;
