pub mod value;
pub mod text;
pub mod arrays;
pub mod strings;
pub mod numbers;
pub mod dicts;
pub mod display;
pub mod randlib;
pub mod cryptolib;
pub mod interp;
pub mod natives;
pub mod stdlib;
pub mod libs;
