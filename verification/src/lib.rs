pub mod errors;
pub mod model;
pub mod names;
pub mod plan;
pub mod shell;
