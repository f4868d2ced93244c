//! A bridge that lets many concurrent callers drive one single-threaded
//! presence connection, together with the rules that turn playback state
//! into presence text.
//!
//! The bridge is an actor: one supervisor owns the native handle and decides,
//! event by event, what the thread that runs it must do next. Callers never
//! touch the handle; they hand work to the supervisor and wait for exactly one
//! outcome.

pub mod art;
pub mod config;
pub mod conversions;
pub mod mastodon;
pub mod mpd;
pub mod native;
pub mod signal;
pub mod supervisor;
pub mod text;
pub mod trace;
pub mod updaters;
