//! Process and tab bookkeeping behind the browser's `servo:processes` page.

pub mod decimal;
pub mod icons;
pub mod menu;
pub mod order;
pub mod processes;
pub mod procfs;
pub mod samples;
pub mod servo_handler;
pub mod tab_stats;
pub mod text;
pub mod tree;
pub mod weburl;
