//! What each command decides and computes.
pub mod candidates;
pub mod clean;
pub mod create;
pub mod deps;
pub mod desktop;
pub mod dev;
pub mod diff;
pub mod doctor;
pub mod history;
pub mod info;
pub mod install;
pub mod installing;
pub mod list;
pub mod lock;
pub mod packing;
pub mod placing;
pub mod release;
pub mod remove;
pub mod run;
pub mod search;
pub mod solver;
pub mod update;
pub mod upgrade;
pub mod verify;
pub mod wrappers;
