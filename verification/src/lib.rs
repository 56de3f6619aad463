//! Deterministic persistence rules of an episodic and semantic memory store.

pub mod artifact;
pub mod artifact_rows;
pub mod bags;
pub mod body;
pub mod bytemap;
pub mod campaigns;
pub mod candidates;
pub mod chars;
pub mod check;
pub mod closure;
pub mod commit_rules;
pub mod config;
pub mod digest;
pub mod drafts;
pub mod edges;
pub mod error;
pub mod evidence;
pub mod fault_points;
pub mod feedback;
pub mod fixtures;
pub mod folding;
pub mod framing;
pub mod gc;
pub mod groups;
pub mod hexadecimal;
pub mod insertion;
pub mod integrity;
pub mod json;
pub mod lifecycle;
pub mod links;
pub mod logical;
pub mod measurements;
pub mod messages;
pub mod model;
pub mod pin_rules;
pub mod plan;
pub mod policy;
pub mod post_state;
pub mod recall;
pub mod receipt;
pub mod receipt_closure;
pub mod receipt_fields;
pub mod receipt_outputs;
pub mod records;
pub mod release;
pub mod retirement;
pub mod retrieval;
pub mod round_trip;
pub mod scale;
pub mod scale_report;
pub mod snapshot;
pub mod sorting;
pub mod state_columns;
pub mod stored;
pub mod tables;
pub mod text;
pub mod tokens;
pub mod tool_receipts;
