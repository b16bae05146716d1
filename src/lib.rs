//! A navigable terminal-style presentation: a grid of styled character
//! cells, panels laid out on it with box-drawn borders, a small markdown
//! renderer, and the state machine that moves between screens.

pub mod background_loading;
pub mod loading_screen;
pub mod markdown_renderer;
pub mod models;
pub mod navigation;
pub mod projects;
pub mod resume;
pub mod terminal_templates;
pub mod ui;
pub mod utils;
