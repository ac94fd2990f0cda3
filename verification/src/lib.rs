pub mod cli;
pub mod db;
pub mod display;
pub mod error;
pub mod hash;
pub mod laws;
pub mod merge;
pub mod observe;
pub mod order;
pub mod plugin;
pub mod report;
pub mod text;
pub mod tree;
