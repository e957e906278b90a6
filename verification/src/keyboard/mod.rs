pub mod conf;
pub mod key;
pub mod keyboard;
pub mod models;
