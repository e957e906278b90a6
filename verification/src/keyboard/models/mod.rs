pub mod corne;
