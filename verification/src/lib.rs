pub mod text;
pub mod types;
pub mod order;
pub mod status;
pub mod diff;
pub mod replace;
pub mod refs;
pub mod log;
pub mod repo;
pub mod console;
pub mod lang;
pub mod listing;
pub mod paths;
pub mod watch;
pub mod commands;
pub mod hunks;
pub mod ops;
pub mod stats;
pub mod search;
pub mod output;
pub mod filediff;
