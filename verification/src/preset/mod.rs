pub mod naming;
pub mod types;
pub mod resolve;
pub mod inheritance;
pub mod store;
pub mod discovery;
pub mod variables;
