//! The decision core of FileSpace, a Windows file manager built on the shell's COM interfaces.

pub mod commands;
pub mod drag_drop;
pub mod guid;
pub mod numerals;
pub mod shell_bags;
pub mod shell_group;
pub mod shell_icons;
pub mod shell_items;
pub mod shell_menu;
pub mod shell_modern;
pub mod shell_thread;
pub mod shell_watch;
pub mod snap_layout;
pub mod text;
pub mod text_map;
pub mod wide;
