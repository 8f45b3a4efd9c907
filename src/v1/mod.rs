pub mod cst;
pub mod ids;
pub mod index;
pub mod literals;
pub mod parser;
pub mod procedures;
pub mod types;
pub mod validators;

pub use parser::ParseSpecContext;
pub mod event_gen;
