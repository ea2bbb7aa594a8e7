pub mod format;
pub mod model;
pub mod store;
