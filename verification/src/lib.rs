pub mod commands;
pub mod http;
pub mod json;
pub mod mono;
pub mod shell;
pub mod sorted;
pub mod style;
pub mod sweep;
pub mod text;
pub mod ui;
