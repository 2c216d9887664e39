//! A status-line generator for a tiling window manager's grouped-window
//! feature. One refresh turns the manager's two query documents into a
//! rank-ordered window snapshot and renders it as a single fixed-width
//! text line; a two-state connection manager drives one refresh per
//! event-stream line and reconnects instead of terminating.
//!
//! Everything that decides or computes lives here, specified and
//! verified: field validation and its error taxonomy, group-rank
//! reconstruction and the stable sort over it, the width budget with
//! truncation, centring and sanitization, and the event-loop transitions.
//! The process edges, reading the event socket, invoking the queries and
//! printing the output records, drive this library from outside.

pub mod config;
pub mod display;
pub mod error;
pub mod events;
pub mod fetch;
pub mod output;
pub mod window;

pub use config::{default_empty_text, default_separator, default_width, Config};
pub use display::{format_line, format_line_checked};
pub use error::Error;
pub use events::{step, ConnState, LoopAction, LoopEvent};
pub use output::Output;
pub use window::{RawClient, RawWorkspace, WindowData, UNRANKED};
