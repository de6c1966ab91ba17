//! Verified core of a terminal audiobook player.

pub mod app;
pub mod bookmarks;
pub mod browse;
pub mod browse_laws;
pub mod chapter_laws;
pub mod chapters;
pub mod complete;
pub mod complete_laws;
pub mod editor;
pub mod encoding;
pub mod input;
pub mod key_laws;
pub mod keyed;
pub mod laws;
pub mod layout;
pub mod library;
pub mod line_laws;
pub mod media;
pub mod order;
pub mod path_laws;
pub mod paths;
pub mod playback;
pub mod player;
pub mod pointer;
pub mod scan_laws;
pub mod screen_laws;
pub mod selection_laws;
pub mod session_laws;
pub mod start_laws;
pub mod storage;
pub mod storage_laws;
pub mod tab_laws;
pub mod text;
pub mod time;
pub mod time_laws;
pub mod title_laws;
pub mod ui;
pub mod view_laws;
