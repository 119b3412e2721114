pub mod cache;
pub mod check;
pub mod compare;
pub mod config;
pub mod data;
pub mod detect;
pub mod diff;
pub mod error;
pub mod files;
pub mod history;
pub mod http;
pub mod init;
pub mod orchestrator;
pub mod order;
pub mod percent;
pub mod plugin;
pub mod process;
pub mod report;
pub mod run;
pub mod runners;
pub mod text;
pub mod time;
