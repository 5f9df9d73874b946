//! Core logic of a media download service: the job state machine, progress
//! estimation, conversion planning, webhook signing and dispatch decisions,
//! byte-range file serving, and an in-memory job/tag/webhook store.

pub mod cache;
pub mod convert;
pub mod downloader;
pub mod export;
pub mod files;
pub mod model;
pub mod orchestrator;
pub mod progress;
pub mod store;
pub mod sys;
pub mod text;
pub mod validation;
pub mod webhook;
