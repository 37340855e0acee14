//! Session, progress and scheduling logic of a resumable multipart uploader.

use vstd::prelude::*;

pub mod api;
pub mod arith;
pub mod async_engine;
pub mod attempt;
pub mod chunk;
pub mod config;
pub mod engine;
pub mod format;
pub mod hash;
pub mod intake;
pub mod laws;
pub mod ledger;
pub mod live_laws;
pub mod meter;
pub mod parts;
pub mod progress;
pub mod queue;
pub mod report;
pub mod report_laws;
pub mod retry;
pub mod runtime;
pub mod session;
pub mod session_laws;
pub mod state;
pub mod store;
pub mod string_map;
pub mod text;
pub mod transfers;
pub mod upload;
pub mod upload_laws;
pub mod upload_orchestrator;
pub mod url_pool;
pub mod wire_laws;

verus! {

/// How many parts of a file are on their way at the same time.
pub const MAX_CONCURRENT_UPLOADS: usize = 4;

/// How often the upload of a part is tried.
pub const MAX_RETRIES: usize = 5;

} // verus!
