//! Decision logic of a preset-injecting proxy for llama.cpp router mode.
//!
//! The proxy stands in front of a `llama-server` whose aliases may share one
//! model. A request for an alias whose model is loaded under another alias is
//! rewritten for that one, with the sampling parameters of the alias that was
//! asked for, so that the backend need not load the model anew.

pub mod document_laws;
pub mod exchange;
pub mod headers;
pub mod identity;
pub mod identity_laws;
pub mod ini;
pub mod ini_laws;
pub mod intercept;
pub mod json;
pub mod keys;
pub mod listing_laws;
pub mod models;
pub mod path_laws;
pub mod paths;
pub mod preset;
pub mod preset_laws;
pub mod refresh;
pub mod reply;
pub mod routing_laws;
pub mod run_laws;
pub mod settings;
pub mod startup;
pub mod table;
pub mod text;
pub mod tracker;
pub mod view_laws;
pub mod wire;
