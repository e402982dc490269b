pub mod animation;
pub mod primitives;
pub mod regions;
