pub mod byte;
pub mod combinator;
pub mod string;
