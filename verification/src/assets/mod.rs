pub mod error;
pub mod handle;
pub mod id;
pub mod io;
pub mod mesh;
pub mod store;
pub mod texture;
