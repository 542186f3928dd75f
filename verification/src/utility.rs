pub mod initializer;
pub mod utils;
