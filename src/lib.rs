//! Expansion of embed markers in templated pages and conversion of a
//! Markdown dialect to HTML, on text held as sequences of characters.
//!
//! A page's text goes either to the embed resolver (`embed`), which splices
//! in sections, variables and folders of files taken from a `ContentStore`,
//! or, for Markdown, through the resolver and then the block parser
//! (`markdown`), which hands each paragraph to the inline formatter
//! (`inline`). Every function is specified over `Seq<char>` views and
//! verified against that specification.
pub mod text;
pub mod scanner;
pub mod order;
pub mod context;
pub mod store;
pub mod config;
pub mod filetype;
pub mod embed;
pub mod markdown;
pub mod inline;
pub mod site;
