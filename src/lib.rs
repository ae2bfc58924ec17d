//! Construction, bounding and flattening of signed-distance-field operator
//! trees, and the hashed value noise used to seed terrain.
pub mod builder;
pub mod component;
pub mod dense_node;
pub mod element;
pub mod expand;
pub mod expanded_node;
pub mod random;
pub mod split;
