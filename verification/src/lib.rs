//! Verified core of a push-to-talk voice input tool: recording state,
//! silence trimming, recording files, configuration, AI request shaping,
//! the global shortcut and the paste sequence.

pub mod trim;
pub mod recorder;
pub mod ready;
pub mod shortcut;
pub mod config;
pub mod files;
pub mod text;
pub mod ai;
pub mod devices;
pub mod input;
pub mod window;
