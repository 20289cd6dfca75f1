pub mod app_state;
pub mod digest;
pub mod engine;
pub mod platform;
pub mod protocol;
pub mod settings;
pub mod size_text;
pub mod text;
