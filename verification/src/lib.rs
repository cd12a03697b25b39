//! Verified core of a meeting transcription and summary agent.
use vstd::prelude::*;

pub mod bots;
pub mod chat;
pub mod cli;
pub mod config;
pub mod diarization;
pub mod diarize_service;
pub mod fs;
pub mod jobs;
pub mod json;
pub mod media;
pub mod metadata;
pub mod models;
pub mod orchestrator;
pub mod paths;
pub mod pipeline;
pub mod recordings;
pub mod refine;
pub mod search;
pub mod storage;
pub mod subtitles;
pub mod summary;
pub mod text;
pub mod transcription;
pub mod voiceprint;
pub mod webhook;

verus! {
} // verus!
