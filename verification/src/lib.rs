use vstd::prelude::*;

pub mod text;
pub mod fs;
pub mod metadata;
pub mod paths;
pub mod app;
pub mod trash;
pub mod uri;
pub mod search;
pub mod kitty;
pub mod places;
pub mod gui;
pub mod cli;
pub mod ui;
pub mod input;
