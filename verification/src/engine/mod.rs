pub mod clipboard;
pub mod connection;
pub mod data_plane;
pub mod devices;
pub mod e2ee;
pub mod history;
pub mod offer;
pub mod path_guard;
pub mod pending;
pub mod retention;
pub mod save_names;
pub mod sliding_window;
pub mod startup;
pub mod tls_trust;
pub mod transfer;
pub mod tray_click;
