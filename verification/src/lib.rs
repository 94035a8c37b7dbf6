use vstd::prelude::*;

pub mod text;
pub mod clock;
pub mod paths;

pub mod order;
pub mod models;
pub mod scan_cache;
pub mod scanner;
pub mod tree_state;
pub mod charts;
pub mod app_logic;
pub mod util;
pub mod menu;
pub mod theme;
pub mod progress;
pub mod progress_ui;
pub mod delete;
pub mod fda;
pub mod export;
pub mod macos_dir;
pub mod scan_traverse;
pub mod scan_bridge;
pub mod modal;
pub mod app_state;
pub mod tree_view;
pub mod text_views;
pub mod panels;
