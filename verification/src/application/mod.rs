pub mod common;
pub mod game_concepts;
pub mod renderer_control;
