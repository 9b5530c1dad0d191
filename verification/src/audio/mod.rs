pub mod backend;
pub mod components;
pub mod systems;
pub mod voices;
