//! Core logic of the Amp text editor: its modes and their state, search/select
//! lists, file opening, jump tags, EditorConfig files, preferences, clipboard
//! content, cursor movement by tokens and text reflowing.

pub mod application;
pub mod buffer_mode;
pub mod clipboard;
pub mod distance;
pub mod editorconfig;
pub mod errors;
pub mod event;
pub mod git_status;
pub mod glob;
pub mod jump;
pub mod key_map;
pub mod matching;
pub mod modes;
pub mod number;
pub mod open_mode;
pub mod paths;
pub mod preferences;
pub mod ranges;
pub mod reflow;
pub mod search_results;
pub mod search_select;
pub mod select_modes;
pub mod selectable_vec;
pub mod symbol_jump;
pub mod tag_generator;
pub mod text;
pub mod token;

pub use selectable_vec::SelectableVec;
