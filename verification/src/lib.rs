//! Telemetry schema and semantic convention processing: tags, version
//! changes, semantic convention catalogs, attribute resolution and the
//! decisions made by the client SDK generator.
pub mod text;
pub mod text_map;
pub mod key_map;
pub mod sorted;
pub mod tags;
pub mod version;
pub mod semconv;
pub mod resolved;
pub mod resolver;
pub mod schema;
pub mod template;
pub mod cache;
