pub mod device;
