pub mod body;
pub mod directives;
pub mod header;
pub mod lexing;
pub mod lines;
pub mod lyrics;
pub mod params;
pub mod parser;
pub mod solfa;
pub mod source;
pub mod symbols;
pub mod values;
