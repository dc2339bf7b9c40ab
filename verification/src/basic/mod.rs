//! The basic form of the mail mover: rules without prefixes or match modes,
//! which must never match a message in common.

pub mod cli;
pub mod config;
pub mod engine;
