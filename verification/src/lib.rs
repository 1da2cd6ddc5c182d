use vstd::prelude::*;

pub mod adapter;
pub mod capabilities;
pub mod census;
pub mod census_walk;
pub mod definition_audit;
pub mod definition_inventory;
pub mod definitions;
pub mod digest;
pub mod direct;
pub mod diagnostics;
pub mod dispatch;
pub mod emission;
pub mod import_inventory;
pub mod import_summary;
pub mod imports;
pub mod inventory;
pub mod language_ir;
pub mod laws;
pub mod metadata;
pub mod model;
pub mod ordering;
pub mod project_index;
pub mod provider_definitions;
pub mod provider_schedule;
pub mod reconcile;
pub mod relations;
pub mod resolver;
pub mod schedule;
pub mod source_file;
pub mod sql_facts;
pub mod sql_inventory;
pub mod sql_literals;
pub mod sql_queries;
pub mod syntax;
pub mod syntax_tree;
pub mod syntax_walk;
pub mod text;
pub mod type_classification;
pub mod type_relation_inventory;
pub mod type_relation_summary;
pub mod type_relations;
pub mod unit_records;
pub mod unit_relations;

verus! {
} // verus!
