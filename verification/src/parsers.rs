pub mod common;
pub mod danbooru;
pub mod nozomi;
pub mod rule34_us;
pub mod rule34_xxx;
pub mod rule34video;
