//! What the main window decides: which document opens, what a finished parse leads to, and what the
//! menus and timers do. The window itself carries the decisions out.

pub mod activation;
pub mod all_documents;
pub mod commands;
pub mod completion;
pub mod events;
pub mod export;
pub mod go_to;
pub mod hotkey;
pub mod opening;
pub mod options;
pub mod reparse;
pub mod restore;
pub mod sleep_timer;
pub mod title;
