//! Toolbox library for inspecting a game's data files: package-root
//! discovery, definition-file parsing with template inheritance
//! resolution, and scan aggregation, together with the smaller rules the
//! surrounding tools rely on (hotkeys, ping parsing, versioning, theme
//! and directory checks).

pub mod directories;
pub mod dupkeys;
pub mod events;
pub mod fspath;
pub mod fstable;
pub mod hotkeys;
pub mod items;
pub mod markup;
pub mod ping;
pub mod rwrmi;
pub mod steam;
pub mod text;
pub mod theme;
pub mod utils;
pub mod version;
pub mod weapons;
