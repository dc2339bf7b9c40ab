//! Rule engine that assigns notmuch-tagged mails to Maildir folders.

pub mod action;
pub mod actions;
pub mod assign;
pub mod basic;
pub mod cli;
pub mod config;
pub mod engine;
pub mod expand;
pub mod guarantees;
pub mod laws;
pub mod model;
pub mod paths;
pub mod query;
pub mod repo;
pub mod text;
