//! The core of a personal project dashboard.
//!
//! - `detect` classifies a project from its marker files and `package.json`.
//! - `git_status` reads git's output into branch and change counts.
//! - `git_worker` is the front end of the background prober: requests out,
//!   results in, cached by path with the time they arrived.
//! - `supervisor` and `output` keep the table of dev-server processes and
//!   their bounded output buffers.
//! - `store`, `config`, `records`, `machine` hold the projects and this
//!   machine's settings and identity.
//! - `input`, `selection`, `ports`, `scrape`, `updater` carry the dashboard's
//!   smaller decisions and the reading of tool output.

mod json;

pub mod text;
pub mod table;

pub mod detect;
pub mod git_status;
pub mod git_worker;
pub mod output;
pub mod supervisor;

pub mod config;
pub mod errors;
pub mod machine;
pub mod records;
pub mod store;

pub mod input;
pub mod ports;
pub mod scrape;
pub mod selection;
pub mod updater;
pub mod picker;
pub mod sync_flow;
