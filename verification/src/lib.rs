//! Verified core of a CMSIS-DAP v2 variable sampler: request encoding and
//! response parsing for the DAP protocol, the SWD bring-up decisions, the
//! acquisition pipeline's commands, framing and buffers, the variable list
//! of a firmware image, command-line arguments, probe selection, and the
//! data models of the user interface.

pub mod error;
pub mod dap;
pub mod text;
pub mod pipeline;
pub mod ui;
pub mod cli;
pub mod usb;
pub mod elf;
