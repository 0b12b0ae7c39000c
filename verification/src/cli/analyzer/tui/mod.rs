pub mod app;
pub mod keys;
pub mod pattern_list;
pub mod preview;
pub mod save_dialog;
pub mod screen;
