//! Verified core of a multiplexed terminal-session host.
//!
//! One long-lived control process owns many shell sessions, each backed by
//! a pseudo-terminal. The process can replace itself in place, handing its
//! PTY descriptors across an exec, and external tools steer it over a local
//! socket. This crate holds the parts of that design worth proving:
//!
//! - [`pty`]: the PTY lifecycle — allocation, resizing, wait-status
//!   decoding, detach and restore across a restart, the forced redraw;
//! - [`store`]: the session registry owned by the single state-owning
//!   thread, and what each control request does to it;
//! - [`protocol`]: the control requests and replies with their wire codec,
//!   proved to round-trip;
//! - [`snapshot`]: the versioned restart snapshot and its codec, proved to
//!   round-trip, with the version gate that rejects foreign snapshots;
//! - [`validate`]: which restored sessions survive the post-restart probes;
//! - [`json`], [`digits`], [`strutil`]: the text machinery under the two
//!   codecs;
//! - [`ids`], [`icons`], [`appicons`], [`ssh`], [`layout`], [`command`],
//!   [`palette`], [`perf`], [`uistate`]: session ids, icon detection, SSH
//!   command-line parsing, follow-mode targets, palette commands, and the
//!   small state machines around the host.

pub mod appicons;
pub mod command;
pub mod digits;
pub mod icons;
pub mod ids;
pub mod json;
pub mod layout;
pub mod palette;
pub mod perf;
pub mod protocol;
pub mod pty;
pub mod snapshot;
pub mod ssh;
pub mod store;
pub mod strutil;
pub mod uistate;
pub mod validate;
