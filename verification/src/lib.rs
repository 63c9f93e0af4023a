pub mod expression;
pub mod parser;
pub mod scanner;
