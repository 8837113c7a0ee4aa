//! Moves telemetry from frontends into backends: documents are reshaped
//! into flat records by a declarative mapping and handed to a backend.

pub mod backend;
pub mod config;
pub mod data;
pub mod eval;
pub mod frontend;
pub mod iter_json_value;
pub mod json;
pub mod pipeline;
pub mod pointer_laws;
pub mod record;
pub mod registry;
pub mod text;
