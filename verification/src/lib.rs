use vstd::prelude::*;

pub mod error;
pub mod text;
pub mod paths;
pub mod types;
pub mod ordered;
pub mod matrix;
pub mod yaml;
pub mod merge;
pub mod schema;
pub mod ports;
pub mod reference;
pub mod render;
pub mod orchestrator;
pub mod selector;
pub mod arg_builder;
pub mod guard;
pub mod fragment;
pub mod janitor;
pub mod executor;
pub mod workspace;
pub mod fingerprint;
pub mod cache;
pub mod resolver;
pub mod commands;
pub mod report;
pub mod planning;
pub mod lockfile;
pub mod interpolate;
pub mod splice;
pub mod cell;
pub mod content_hash;
pub mod signing;

verus! {

} // verus!
