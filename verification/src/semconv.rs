//! Semantic convention catalogs: the specifications of groups, attributes and
//! metrics, how groups are validated, and how a catalog indexes and resolves
//! them.
pub mod stability;
pub mod attribute;
pub mod group;
pub mod metric;
pub mod catalog;
pub mod resolution;
