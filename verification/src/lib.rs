//! Port Scout keeps track of local development servers: which project owns a listening port,
//! which ports a project's configuration files mention, and which listeners on the machine
//! belong to a project at all.
//!
//! The crate holds the decisions. Running commands, touching the file system and drawing
//! windows is left to the application around it, which hands in what it read and carries out
//! what comes back.

pub mod branch;
pub mod commands;
pub mod config_laws;
pub mod control;
pub mod detection;
pub mod detection_laws;
pub mod discovery;
pub mod discovery_laws;
pub mod folder_laws;
pub mod folders;
pub mod launch;
pub mod list_laws;
pub mod listener_laws;
pub mod listeners;
pub mod manifest;
pub mod model_laws;
pub mod numbers;
pub mod ordering;
pub mod ownership;
pub mod ownership_laws;
pub mod path_laws;
pub mod paths;
pub mod port_laws;
pub mod port_text_laws;
pub mod ports;
pub mod project_laws;
pub mod projects;
pub mod ranking;
pub mod run_laws;
pub mod selection;
pub mod snapshot;
pub mod stamps;
pub mod status;
pub mod text;
pub mod text_laws;
pub mod text_map;
pub mod window;
