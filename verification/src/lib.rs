//! Verified core of a tool that manages `.gitignore` files.

pub mod text;
pub mod rules;
pub mod presets;
pub mod merge;
pub mod update;
pub mod laws;
pub mod catalog;
pub mod completion;
pub mod cache;
pub mod report;
pub mod matcher;
pub mod rule_laws;
pub mod merge_laws;
pub mod catalog_laws;
pub mod preset_laws;
pub mod output_laws;

pub use rules::{Rule, normalize, parse_rules, find_duplicates};
pub use presets::parse_presets;
pub use merge::merge_addition;
pub use update::{NewGitignorePlan, plan_new_gitignore, pattern_addition};
