//! Reconciliation of optimizer results with a gear profile and a settings document.

pub mod engine;
pub mod error;
pub mod ids;
pub mod json;
pub mod laws;
pub mod optimizer;
pub mod profile;
pub mod report;
pub mod settings;
pub mod settings_doc;
pub mod state;
pub mod text;
