//! Interactive branch browser core: wildcard protection patterns, the
//! application state machine, the work-item fetch orchestrator, the
//! HTML-to-styled-lines renderer and the remote-tracking status model.

pub mod text;
pub mod style;
pub mod pattern;
pub mod work_item;
pub mod git;
pub mod app;
pub mod session;
pub mod html;
pub mod config;
pub mod layout;
pub mod cli;
pub mod panes;
