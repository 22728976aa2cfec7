//! Reader for legacy Word Binary (`.doc`) files.

pub mod chpx;
pub mod codepage;
pub mod document;
pub mod error;
pub mod fib;
pub mod images;
pub mod list_format;
pub mod ole_objects;
pub mod papx;
pub mod piece_table;
pub mod sprm;
pub mod word6;
