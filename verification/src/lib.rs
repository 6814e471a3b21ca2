//! A chat client and server protocol, a small scripting language (tokenizer,
//! parser and evaluator) and the decisions of a small apartment game, with
//! their behaviour stated in contracts and proved.

pub mod ast;
pub mod client;
pub mod evaluator;
pub mod game;
pub mod parser;
pub mod pattern;
pub mod protocol;
pub mod server;
pub mod text;
pub mod token;
pub mod tokenizer;
