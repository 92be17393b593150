pub mod text;
pub mod keyed;
pub mod sorting;
pub mod platform;
pub mod paths;
pub mod config;
pub mod state;
pub mod host;
pub mod installer;
pub mod packs;
pub mod walk;
pub mod selection;
pub mod update;
pub mod prompt;
pub mod steps;
pub mod colors;
pub mod listing;
pub mod details;
pub mod cli;
pub mod terminal;
