pub mod commands;
pub mod protocol;
pub mod swd;
