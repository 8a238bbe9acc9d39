//! The state-synchronization core of a multi-tab file manager.
//!
//! The [`manager::Manager`] owns the per-tab state — each tab's current and
//! parent directory listings, its archive of previously visited folders, and
//! its preview slot — together with the clipboard of the last yank and the
//! mimetype cache. Asynchronous producers (the directory reader, the
//! filesystem watcher, the mimetype prober, the preview renderer, the
//! prompts) feed their results in through the `update_*` entry points; every
//! entry point mutates state synchronously, appends the effects it wants
//! performed to an outbox of [`event::Event`] values, and reports whether a
//! re-render is due. Stale results are recognized by path identity and
//! discarded, so results may arrive in any order.

pub mod event;
pub mod file;
pub mod folder;
pub mod manager;
pub mod mime;
pub mod path;
pub mod preview;
pub mod tab;
pub mod tabs;
