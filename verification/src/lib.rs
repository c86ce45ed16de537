//! Per-monitor most-recently-used workspace history for Hyprland, with a
//! frozen cycling session that previews older workspaces and either commits
//! or cancels the selection.

pub mod history;
pub mod monitors;
pub mod session;
pub mod text;
pub mod protocol;
pub mod paths;
