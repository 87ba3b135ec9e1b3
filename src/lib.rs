//! Semantic-analysis core for the Veryl hardware-description language: scoped
//! symbol and namespace tables, a pre/post-order walker over syntax trees, and
//! the analysis passes that run on it.

pub mod analyze_error;
pub mod analyzer;
pub mod check_module_instance;
pub mod create_symbol_table;
pub mod namespace;
pub mod namespace_table;
pub mod resource_table;
pub mod symbol;
pub mod symbol_table;
pub mod syntax_tree;
pub mod token;
pub mod veryl_walker;
