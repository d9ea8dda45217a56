//! The decisions of hpm, a package manager: what is installed and what is
//! recorded of it, which versions meet which requirements, what a manifest says,
//! how programs are kept apart, and what each command does.
//!
//! Every function states what it returns, and Verus proves it. What touches the
//! disk, the network or the kernel lies outside: it hands plain values in, and
//! carries out what comes back.
pub mod cli;
pub mod clock;
pub mod collections;
pub mod commands;
pub mod config;
pub mod db;
pub mod hash;
pub mod hooks;
pub mod manifest;
pub mod number;
pub mod order;
pub mod paths;
pub mod pattern;
pub mod repo;
pub mod sandbox;
pub mod squash;
pub mod state;
pub mod text;
pub mod utils;
