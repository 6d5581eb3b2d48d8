//! Core data model, lint rules, Markdown queries and printer for `adept`, a
//! linter and formatter for Agent Skills (`SKILL.md` files plus companion
//! files).

pub mod chars;
pub mod text;
pub mod ratio;
pub mod diagnostic;
pub mod token;
pub mod order;
pub mod path;
pub mod rules;
pub mod companion;
pub mod md_events;
pub mod markdown;
pub mod lines;
pub mod sorting;
pub mod skill;
pub mod evals;
pub mod gate;
pub mod printer;
pub mod config;
pub mod score;
pub mod cli;
pub mod mcp;
pub mod create;
pub mod writer;
pub mod reporting;
