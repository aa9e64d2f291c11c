//! Verified core of a tabbed, dual-pane file manager: natural ordering of
//! names, list sorting and selection, path text handling and the small
//! decision functions the user interface relies on.

pub mod text;
pub mod nat_sort;
pub mod config;
pub mod tab;
pub mod entry_order;
pub mod sorting;
pub mod paths;
pub mod index_set;
pub mod shell;
pub mod fs_ops;
pub mod typeahead_input;
pub mod file_icons;
pub mod fonts;
pub mod toolbar_icons;
pub mod commands;
pub mod app_icon;
pub mod watch;
pub mod preview;
pub mod tab_strip;
pub mod shortcuts;
