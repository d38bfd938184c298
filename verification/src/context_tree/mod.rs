pub mod events;
pub mod matcher;
pub mod node;
pub mod shape;
pub mod tree;
