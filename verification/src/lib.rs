//! miami: a dashboard for `pi` agents running in Ghostty tabs and panes.
//!
//! Each `pi` reports its lifecycle over a unix socket through an extension;
//! this library keeps the registry of agents those reports describe, pulls
//! ticket keys and readable model names out of them, writes the AppleScript
//! that focuses a pane or opens a tab, and decides what the dashboard shows
//! and what a key press does.
//!
//! - [`registry`]: agents keyed by pid, partial updates, reaping, ordering.
//! - [`ticket`]: Jira-style ticket keys in text and in buck worktree paths.
//! - [`model`]: readable model names out of raw ids.
//! - [`ghostty`]: AppleScript quoting, scripts and `osascript`'s answers.
//! - [`ui`]: header, rows, detail pane, footer and the plain table.
//! - [`keys`]: key presses and the footer messages of actions.
//! - [`wire`]: framing of the report stream.
//! - [`text`], [`order`]: characters, numbers and text order.
pub mod ghostty;
pub mod keys;
pub mod model;
pub mod order;
pub mod registry;
pub mod text;
pub mod ticket;
pub mod ui;
pub mod wire;
