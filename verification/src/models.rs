pub mod progress;
pub mod types;
