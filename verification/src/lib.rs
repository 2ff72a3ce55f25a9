pub mod engine;
pub mod game;
pub mod laws;
pub mod render;
pub mod story;
pub mod story_data;
pub mod story_loader;
pub mod text;
