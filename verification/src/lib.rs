pub mod cli;
pub mod diagnostic;
pub mod ir;
pub mod memory;
pub mod project;
pub mod provider;
pub mod recovery;
pub mod report;
pub mod runtime;
pub mod structure;
pub mod syntax;
pub mod text;
pub mod tree;
pub mod voice;
