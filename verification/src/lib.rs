pub mod text;
pub mod order;
pub mod num;
pub mod entry;
pub mod usage;
pub mod launcher;
pub mod parser;
pub mod scanner;
pub mod launch;
pub mod style;
pub mod geometry;
pub mod layout;
pub mod model;
pub mod theme;
pub mod config;
pub mod icon;
pub mod pixels;
pub mod labels;
pub mod properties;
pub mod input;
pub mod paths;
