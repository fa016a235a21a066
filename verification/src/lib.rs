//! Core of a JavaScript bundler: a byte-exact code assembler that interleaves
//! original and synthetic fragments while recording sectioned source-map
//! boundaries, a memoized resolver for import requests, and the
//! code-generation rules that rewrite dynamic `import()` call sites.

pub mod ast;
pub mod code_builder;
pub mod dynamic;
pub mod module_asset;
pub mod pattern_mapping;
pub mod resolve;
pub mod source_map;
pub mod source_pos;

pub use source_pos::SourcePos;
