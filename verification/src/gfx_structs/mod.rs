pub mod element;
pub mod model;
pub mod mutator;
pub mod placement;
pub mod predicate;
pub mod tree;
pub mod tree_walker;
