use vstd::prelude::*;

pub mod assessment;
pub mod binary64;
pub mod classification_build;
pub mod classification_report;
pub mod classification_markdown;
pub mod classification_text;
pub mod classify;
pub mod cli_help;
pub mod cli_snapshot;
pub mod diagnostic;
pub mod error;
pub mod field_tree;
pub mod finding_groups;
pub mod fnv;
pub mod keyed_sort;
pub mod model;
pub mod order_findings;
pub mod path_order;
pub mod paths;
pub mod presenter;
pub mod progress;
pub mod propagation;
pub mod publish_json;
pub mod publish_order;
pub mod rate_limits;
pub mod readiness;
pub mod regex_update;
pub mod release_tags;
pub mod readiness_report;
pub mod recommendation;
pub mod seed_updates;
pub mod semantic;
pub mod sync;
pub mod sync_plan;
pub mod terminal;
pub mod text;
pub mod trust;
pub mod version_table;
pub mod versioned;
pub mod versioned_plan;

verus! {

} // verus!
