pub mod client;
pub mod gigaclient;
pub mod net;
