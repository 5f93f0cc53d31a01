//! The state behind a browser workspace: an in-memory file system, the
//! interaction cells (rename, drag, context menu), tabbed activity panels and
//! the resizable layout. Every operation is a plain state transition with a
//! contract; the rendering host performs the effects.
pub mod activity_panel;
pub mod console;
pub mod contextmenu;
pub mod explorer;
pub mod interaction;
pub mod listing;
pub mod vfs;
pub mod workspace;
