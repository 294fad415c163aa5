pub mod sort;
pub mod cursor;
pub mod input;
pub mod app;
