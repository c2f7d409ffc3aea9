pub mod decoder;
pub mod display;
pub mod feed;
pub mod model;
pub mod player;
pub mod reader;
