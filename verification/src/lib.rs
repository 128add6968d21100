pub mod cli;
pub mod text;
pub mod path;
pub mod config;
pub mod run;
pub mod fzf;
pub mod tmux;
pub mod layout;
