//! The decisions behind the graphical interface; drawing is not among them.
pub mod chat_panel;
pub mod dropzones;
pub mod persistence;
pub mod run_controller;
pub mod form;
pub mod options_panel;
