pub mod text;
pub mod escape;
pub mod markup;
pub mod number;
pub mod model;
pub mod html;
pub mod cli;
pub mod dns;
pub mod commands;
pub mod pages;
pub mod account;
pub mod config_law;
