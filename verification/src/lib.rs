//! Verified core of a dependency-usage checker for Python sources.
//!
//! The crate extracts, from a body of Python source files, every imported
//! module together with the source locations where the import occurs:
//! encoding-aware decoding of file contents, a statement-tree walk that
//! classifies import constructs, mapping of byte offsets to line/column
//! positions with inline suppression comments, notebook-cell extraction,
//! and the merge of per-file results into one aggregate mapping.
//!
//! Source text is handled as UTF-8 bytes throughout: every string-valued
//! field or parameter of type `Vec<u8>` holds the UTF-8 bytes of the
//! corresponding text.

pub mod ast;
pub mod bytes_util;
pub mod discovery;
pub mod encoding;
pub mod locate;
pub mod location;
pub mod notebook;
pub mod parse;
pub mod pipeline;
pub mod table;
pub mod visitor;
