pub mod display_buffer;
pub mod cursor;
pub mod controls;
pub mod channel_panel;
pub mod watch_panel;
pub mod variable_browser;
pub mod waveform;
