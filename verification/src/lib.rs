//! Organising local Git repositories into folders and summarising their state.

pub mod commands;
pub mod git;
pub mod icons;
pub mod ide;
pub mod models;
pub mod order;
pub mod search;
pub mod store;
pub mod text;
pub mod ui;
