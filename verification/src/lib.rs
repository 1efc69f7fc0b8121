//! Closed lowering of egglog rules to DuckDB SQL plans.

pub mod action_body;
pub mod action_plan;
pub mod action_rule;
pub mod authority;
pub mod authority_laws;
pub mod base;
pub mod body_laws;
pub mod catalog;
pub mod catalog_laws;
pub mod closure_laws;
pub mod count_laws;
pub mod effect_laws;
pub mod egraph;
pub mod epoch_laws;
pub mod footprint_laws;
pub mod form_laws;
pub mod head_laws;
pub mod ir;
pub mod keys;
pub mod marker_rekey;
pub mod match_laws;
pub mod match_query;
pub mod merge_laws;
pub mod merge_meaning;
pub mod merge_program;
pub mod order_laws;
pub mod path_compress;
pub mod plan_laws;
pub mod rebuild;
pub mod rejection;
pub mod rekey_laws;
pub mod rewrite_laws;
pub mod rule_meaning;
pub mod run_laws;
pub mod scalar_expr;
pub mod shape;
pub mod slot_laws;
pub mod sql;
pub mod staging;
pub mod staging_laws;
pub mod structure_laws;
pub mod text;
pub mod typing_laws;
pub mod union_laws;
pub mod variable_laws;
