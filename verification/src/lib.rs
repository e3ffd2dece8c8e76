//! Verified core of a converter from Debian `.deb` packages to Void Linux
//! `.xbps` packages: option parsing, control-file and metadata handling,
//! dependency resolution and the text that the tool prints.
pub mod text;
pub mod control;
pub mod config;
pub mod metadata;
pub mod args;
pub mod install;
pub mod paths;
pub mod order;
pub mod deps;
pub mod render;
pub mod numbers;
pub mod system;
pub mod packaging;
pub mod run;
pub mod env;
pub mod clock;
