//! VSnapU Downloader's logic: which update to offer, the job manifest and its error messages,
//! resumable per-file downloads as a state machine, and the editor's desktop session.
//!
//! Everything here is verified; network, disk and window work is done by the caller, which
//! hands the results back as plain values.
pub mod text;
pub mod update_check;
pub mod manifest;
pub mod download;
pub mod editor_session;
