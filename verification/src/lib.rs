pub mod parse;
pub mod state;
pub mod text;
