//! Core logic of a portable OpenProject API v3 command-line client:
//! configuration precedence, credential bookkeeping, request paths,
//! payload construction and project resolution, each with a contract.

pub mod activities;
pub mod cli;
pub mod client;
pub mod compact;
pub mod config;
pub mod credentials;
pub mod error;
pub mod json;
pub mod outside;
pub mod projects;
pub mod release;
pub mod requests;
pub mod summaries;
pub mod text;
pub mod workpackages;
