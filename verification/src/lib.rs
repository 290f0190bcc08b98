//! A launcher that runs a command line with administrator rights.
//!
//! The library holds the pure parts of the launcher: the tokenizer of the raw
//! command line, the codec that carries an argument vector through a single
//! parameter string, the message exchanged between the two phases, and the
//! decisions that the program takes around the operating system's services.
pub mod codec;
pub mod decimal;
pub mod error;
pub mod launcher;
pub mod request;
pub mod scan;
pub mod tokenizer;
