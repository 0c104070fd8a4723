pub mod fetch;
pub mod pom;
pub mod tree;
