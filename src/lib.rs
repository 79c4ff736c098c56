//! Reading ISO 10303 (STEP) data: an EXPRESS schema parser and legalizer, a
//! Part 21 exchange structure parser, and the holder and table model that
//! loads exchange records and resolves the references between them.
pub mod ap000;
pub mod ast;
pub mod codegen;
pub mod exchange;
pub mod lexical;
pub mod parser;
pub mod part21;
pub mod semantics;
