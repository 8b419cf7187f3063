//! Verified core of an unofficial command-line client for The MLC Public
//! Search API: request documents, response handling, credential-source rules,
//! output rows and the self-update decisions.
use vstd::prelude::*;

pub mod cli;
pub mod error;
pub mod json;
pub mod text;
pub mod client;
pub mod config;
pub mod output;
pub mod update;
pub mod checksums;
