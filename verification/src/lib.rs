pub mod html;
pub mod models;
pub mod network;
pub mod parsers;
pub mod pattern;
pub mod text;
pub mod utility;
