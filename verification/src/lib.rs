pub mod connectivity;
pub mod connector;
pub mod dag;
pub mod dag_schemas;
pub mod errors;
pub mod graph;
pub mod index_run;
pub mod laws;
pub mod meaning;
pub mod node;
pub mod populate;
pub mod reach;
pub mod results;
pub mod schema_inference;
pub mod secondary_environment;
pub mod types;
