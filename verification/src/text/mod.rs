//! Text handling over the characters of a string.

pub mod bytes;
pub mod chars;
pub mod compose;
pub mod numbers;
pub mod order;
pub mod paths;
pub mod pieces;
pub mod quote;
pub mod search;
