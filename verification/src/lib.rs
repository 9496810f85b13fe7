//! Core of a license-header insertion tool.
//!
//! The library decides, for each entry of a project tree, whether a license
//! header has to be inserted, what that header looks like for the file's
//! type, and how the file's content changes. All file system work (walking
//! the tree, reading and writing files) is left to the caller.

mod driver;
mod header;
mod mutate;
mod style;
mod text;

pub use driver::Action;
pub use driver::ActionModel;
pub use driver::Entry;
pub use driver::EntryModel;
pub use driver::Runner;
pub use driver::Summary;
pub use driver::lemma_disabled_rule_never_mutates;
pub use driver::lemma_no_extension_skipped;
pub use driver::lemma_non_file_skipped;
pub use driver::lemma_matched_after_is_total;
pub use driver::lemma_unmatched_tree_counts_zero;
pub use driver::matched_after;
pub use driver::matched_total;
pub use driver::saturating_count;
pub use driver::step_action;
pub use driver::step_matched;
pub use mutate::ApplyOutcome;
pub use mutate::apply_header;
pub use mutate::header_present;
pub use mutate::lemma_apply_idempotent;
pub use header::fill_line;
pub use header::file_token;
pub use header::lemma_synthesis_deterministic;
pub use header::rendered_header;
pub use header::rendered_lines;
pub use header::synthesize;
pub use header::wrap_lines;
pub use header::year_token;

pub use style::CommentStyle;
pub use style::Config;
pub use style::FiletypeRule;
pub use style::RuleModel;
pub use style::StyleModel;
pub use style::ext_of;
pub use style::extension_of;
pub use style::lemma_ext_after_last_dot;
pub use style::lemma_no_dot_no_ext;
pub use style::rule_lookup;
pub use style::rules_unique;
pub use text::dec_digits;
pub use text::join_lines;
pub use text::join_with_newlines;
pub use text::replace_all;
pub use text::replace_all_bytes;
pub use text::u32_decimal;
