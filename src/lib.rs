//! A streaming markup tokenizer: bytes go in by chunks, lexical units come
//! out with the exact input bytes that produced them, and a small shadow of
//! tree construction picks the text mode after context-sensitive tags.
pub mod tag_name_hash;
pub mod token;
pub mod tokenizer;
pub mod tree_builder_simulator;
pub mod scanner;
