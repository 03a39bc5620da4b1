//! Verified core logic of the Papyro notes application: note text
//! analysis, file naming, front matter tags, workspace search, file tree
//! ordering, watch events and the pure parts of the user interface.

pub mod asset_cleanup;
pub mod assets;
pub mod commands;
pub mod doc_cache;
pub mod editor_host;
pub mod editor_pane;
pub mod file_ops;
pub mod file_tree;
pub mod front_matter;
pub mod highlight;
pub mod labels;
pub mod models;
pub mod palette;
pub mod paths;
pub mod platform;
pub mod preview;
pub mod primitives;
pub mod quick_open;
pub mod search;
pub mod settings_form;
pub mod status;
pub mod text;
pub mod tree;
pub mod watch;
pub mod workspace;
