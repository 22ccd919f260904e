//! The settings store and the API-key verification state machine.

pub mod api_key_loader;
pub mod settings;
