//! Editor support for templates that mix markup, script blocks,
//! `{expression}` interpolations, `{#if}`/`{#each}` control flow, `{@...}`
//! directives and comments.
//!
//! - `regions`: the classifier that splits a text into typed, sorted spans.
//! - `rope` and `document`: an open document, its edits, and the mapping
//!   between (line, column) positions and character offsets.
//! - `diagnostics`, `imports`, `symbols`, `assist`: what the editor features
//!   compute from a document (problems, module bindings, the outline, the
//!   completion context and hover topics).
use vstd::prelude::*;

pub mod assist;
pub mod diagnostics;
pub mod document;
pub mod imports;
pub mod regions;
pub mod rope;
pub mod symbols;

verus! {

} // verus!
