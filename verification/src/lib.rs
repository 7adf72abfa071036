pub mod arena;
pub mod utils;
