//! Virtual desktop state tracking, Hyprland IPC decisions and widget bookkeeping
//! for a Waybar module that shows Hyprland virtual desktops.

pub mod hyprland;
pub mod text;
pub mod vdesk;
pub mod arrange;
pub mod widgets;
