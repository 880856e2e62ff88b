//! Text, formatting and parsing logic of a terminal system monitor.
pub mod strings;
pub mod format;
pub mod fixed;
pub mod text;
pub mod os;
pub mod icons;
pub mod software;
pub mod hardware;
pub mod logo;
pub mod pixels;
pub mod packages;
pub mod display;
pub mod disks;
pub mod overview;
pub mod proc_tree;
pub mod title;
pub mod widgets;
pub mod sys_logo;
pub mod info_tabs;
pub mod info_panel;
pub mod layout;
pub mod tables;
pub mod gauges;
pub mod gpu_dash;
pub mod help;
pub mod gpu_procs;
pub mod process_table;
pub mod bars;
