pub mod bundle;
pub mod key;
pub mod loader;
