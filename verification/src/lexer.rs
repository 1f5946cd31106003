pub mod laws;
pub mod lex;
pub mod token;
