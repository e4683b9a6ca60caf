//! Jamoa: the decision core of a tray application that renames files whose names were stored in
//! decomposed Unicode form (NFD) to the composed form (NFC).
//!
//! - `normalizer`: which names need composing, which are left alone, and what to call a file whose
//!   composed name is taken;
//! - `rename`: renaming one file, as a conversation with the file system;
//! - `folder`: a model of directories, and what a rename comes to in them;
//! - `scan`: what a scan comes to in the directories it walks;
//! - `paths`: paths by their components;
//! - `config`: settings and history;
//! - `engine`: reported paths, scans, and what is watched;
//! - `commands`: what the user does to the settings;
//! - `shell`: tray menu, window and updates;
//! - `text`: texts as sequences of characters;
//! - `guarantees`: what the functions of the others promise of their arguments and results.
pub mod commands;
pub mod config;
pub mod engine;
pub mod folder;
pub mod guarantees;
pub mod normalizer;
pub mod paths;
pub mod rename;
pub mod scan;
pub mod shell;
pub mod text;
