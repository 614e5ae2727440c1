//! The interactive workbench: everything about it that can be decided without
//! a terminal.

pub mod app;
pub mod engine;
pub mod event;
pub mod export;
pub mod theme;
pub mod ui;
pub mod view;
