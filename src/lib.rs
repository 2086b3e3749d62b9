//! Registry, reconciliation and deployment logic of a mod manager for a
//! game whose loader reads mods out of alphabetically named slot folders.
pub mod ini_doc;
pub mod text;
pub mod slot;
pub mod descriptor;
pub mod registry;
pub mod manager;
pub mod engine;
pub mod log;
