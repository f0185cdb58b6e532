pub mod sample;
pub mod ring_buffer;
pub mod engine;
