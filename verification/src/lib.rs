//! The core of a static site generator whose templates are Scheme programs.
//!
//! Two pieces carry the logic. `metadata` reads a parenthesised metadata
//! block into a flat record of keys and values, and `sexp_html` renders the
//! value tree that a template gives to markup text. Around them stand the
//! value model, the framing of post files, the conversion of Markdown, and
//! what the site build computes between reading files and writing them.

pub mod markdown;
pub mod metadata;
pub mod metadata_laws;
pub mod post;
pub mod record;
pub mod sexp_html;
pub mod site;
pub mod text;
pub mod value;
