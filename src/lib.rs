//! Bundles a multi-file Lua project into one script by inlining the files
//! named by directives in the main file.
pub mod bundle;
pub mod directive;
pub mod locator;
pub mod text;
