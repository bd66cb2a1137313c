pub mod ast;
pub mod model;
pub mod grammar;
pub mod expression_parser;
pub mod parser;
