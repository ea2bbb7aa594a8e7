pub mod primitives;
