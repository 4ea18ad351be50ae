//! Offline text recognition for KDE Plasma.
pub mod arith;
pub mod cli;
pub mod keyboard;
pub mod models;
pub mod names;
pub mod ocr;
pub mod order;
pub mod path;
pub mod text;
