//! Positions of trivia (comments, blank lines, line breaks, trailing commas)
//! recorded while scanning a module, and the queries made over them later.

pub mod comment;
pub mod extra;
pub mod span;

pub use comment::Comment;
pub use extra::ModuleExtra;
pub use span::SrcSpan;
