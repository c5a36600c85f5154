pub mod edge;
pub mod geometry;
pub mod surface_data;
pub mod registry;
pub mod events;
pub mod shell;
pub mod seat;
