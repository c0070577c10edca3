//! The core of a language server for Blade templates: it keeps the text of
//! the open documents in step with the edits that an editor sends, and works
//! out the syntax errors of a document from a parse of its current text.
//!
//! - [`position`] turns positions, counted in the encoding of the session,
//!   into byte offsets and back.
//! - [`util`] folds a batch of edits into a document; [`batch_laws`] and
//!   [`order_laws`] hold what is proved of such batches.
//! - [`store`] holds the open documents, [`db`] and [`analysis`] the texts
//!   that are analysed and the parsed documents remembered for them.
//! - [`parser`], [`document`], [`syntax`] and [`diagnostics`] parse a text
//!   and report its syntax errors.
//! - [`handler`] and [`server`] put these together for the messages of a
//!   session.

pub mod analysis;
pub mod batch_laws;
pub mod db;
pub mod diagnostics;
pub mod document;
pub mod handler;
pub mod lsp_to_tree;
pub mod order_laws;
pub mod parser;
pub mod position;
pub mod protocol;
pub mod server;
pub mod store;
pub mod syntax;
pub mod text;
pub mod util;
