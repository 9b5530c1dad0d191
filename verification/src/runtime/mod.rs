pub mod app;
pub mod error;
pub mod subsystem;
