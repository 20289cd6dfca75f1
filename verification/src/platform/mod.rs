pub mod clipboard_linux;
pub mod clipboard_windows;
pub mod ls_hygiene;
pub mod notification_status;
pub mod tray_placement;
