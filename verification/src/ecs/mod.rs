pub mod component_identity;
pub mod entity;
pub mod error;
pub mod model;
pub mod world;
