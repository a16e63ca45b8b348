//! The rules. Each one turns texts and budgets into findings.

pub mod frontmatter_limit;
pub mod skill_index_budget;
pub mod skill_structure;
pub mod token_limit;
pub mod unique_fields;
