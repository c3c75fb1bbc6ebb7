//! Preprocessing pipeline for personal-wiki flavoured markdown documents.
//!
//! The crate rewrites markdown link targets, substitutes author-defined
//! variables, and applies post-render attribute directives to the produced
//! HTML.  All text transformations are verified; calls into the markdown
//! renderer and the HTML tree live behind a small set of trusted wrappers.
#![verifier::loop_isolation(false)]

mod text;
mod paths;
mod links;
mod errors;
mod variables;
mod options;
mod directives;
mod pipeline;
mod laws;

pub use paths::handle_spaces;
pub use paths::clean_path;
pub use paths::relative_path;
pub use links::handle_fragment;
pub use links::fix_link_vimwiki;
pub use links::fix_link_classified;
pub use links::fix_link;
pub use errors::WikiError;
pub use variables::VarStore;
pub use variables::preprocess_variables;
pub use options::VimWikiOptions;
pub use options::VimWikiCmdlineArgs;
pub use directives::collect_directives;
pub use directives::strip_directives;
pub use directives::Directive;
pub use directives::apply_commands;
pub use pipeline::rewrite_links;
pub use laws::lemma_preprocess_identity;
pub use laws::lemma_reference_substituted;
pub use laws::lemma_every_reference_substituted;
pub use laws::lemma_block_stripped;
pub use laws::lemma_no_block_in_output;
pub use laws::lemma_undefined_variable_fatal;
pub use laws::lemma_preprocess_total;
pub use laws::lemma_unknown_type_aborts;
pub use laws::lemma_resolution_idempotent;
pub use paths::lemma_clean_idempotent;
pub use variables::lemma_store_last_wins;
