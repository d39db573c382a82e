//! Map Remote rules for an intercepting HTTPS proxy: rule matching and
//! rewriting, profiles, importers, PAC generation and the traffic log.

pub mod seqs;
pub mod text;
pub mod errors;
pub mod rules;
pub mod config;
pub mod rule_list;
pub mod profile_edit;
pub mod events;
pub mod traffic;
pub mod pac;
pub mod convert;
pub mod routing;
pub mod certs;
pub mod pid;
