//! Cleans e-mail bodies: strips boilerplate paragraphs and lines chosen by
//! global and per-sender rules, and collapses the blank lines left behind.
pub mod text;
pub mod matcher;
pub mod resolver;
pub mod normalize;
pub mod filter;
