pub mod messages;
pub mod search_field;
pub mod text_input;
pub mod views;
pub mod theme;

pub use theme::{Appearance, Theme};
