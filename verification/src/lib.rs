pub mod assembler;
pub mod cpu;
pub mod device;
pub mod parser_combinator;
