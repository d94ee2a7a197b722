//! Kettle: the verified core of a Homebrew front end.

pub mod application;
pub mod ascii;
pub mod askpass;
pub mod brew;
pub mod browser;
pub mod domain;
pub mod icon;
pub mod github;
pub mod ids;
pub mod infrastructure;
pub mod maps;
pub mod order;
pub mod rank;
pub mod rows;
pub mod search;
pub mod sign;
pub mod text;
pub mod ui;
