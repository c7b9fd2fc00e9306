//! Extraction of database-connection declarations from configuration text.
//!
//! Connection declarations turn up in four textual forms: as a tag with
//! attributes, as a literal between `("` and `")`, as a literal between double
//! quotes, and as the lines of a settings block. This library finds the
//! candidates for such declarations in the text of a file and resolves each to
//! a connection (data source, user id, provider), to an error that says what
//! is missing, or to nothing.
//!
//! The modules, leaves first:
//! - [`text`]: characters and texts: white space, case folding, trimming.
//! - [`key`]: from a raw key name to the role it plays.
//! - [`tokenizer`]: from the body of a declaration to its `key=value` pairs.
//! - [`extractor`]: from the text of a file to candidate substrings.
//! - [`resolver`]: from one candidate to a connection, an error or nothing.
//! - [`pipeline`]: from files to the connections and errors found in them.
//! - [`table`]: the two result tables as rows of cells.
//! - [`laws`]: what holds of all of these together.
//!
//! The library reads no file and writes none: the caller hands it paths and
//! texts and gets lists back.

pub mod extractor;
pub mod key;
pub mod laws;
pub mod pipeline;
pub mod resolver;
pub mod table;
pub mod text;
pub mod tokenizer;
