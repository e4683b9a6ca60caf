//! What the functions of the library promise, stated of their arguments and results alone: each law
//! speaks of a call and what came of it, over characters, bytes, fields and numbers.
pub mod jobs;
pub mod names;
pub mod places;
pub mod reports;
pub mod settings;
pub mod tray;
