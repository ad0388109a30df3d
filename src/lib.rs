//! An mdbook preprocessor core that rewrites the prose of every chapter with
//! the uwu transform while keeping the Markdown structure intact.
pub mod book;
pub mod error;
pub mod events;
pub mod preprocessor;
pub mod transform;
