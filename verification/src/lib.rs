//! Persistence model of a multi-tenant pipeline platform, with machine-checked
//! contracts.
//!
//! `store` states the capability interface over the rows that a backend
//! holds; `memory` is the in-memory backend. The other modules are the parts
//! that the interface is made of: projects and errors (`project`), paging
//! (`page`), content-addressed payloads and their join records (`blob`,
//! `blob_store`), datasets (`datasets`), runs (`runs`), specifications
//! (`specifications`), the registers of data sources and databases
//! (`registry`), documents with their histories, tags and search
//! (`documents`, `document_store`, `versions`, `tags`, `search`), tables and
//! rows (`tables`, `table_store`, `table`) and the response caches (`cache`).

pub mod blob;
pub mod blob_store;
pub mod cache;
pub mod datasets;
pub mod document_store;
pub mod documents;
pub mod memory;
pub mod page;
pub mod project;
pub mod registry;
pub mod runs;
pub mod search;
pub mod specifications;
pub mod store;
pub mod table;
pub mod table_store;
pub mod tables;
pub mod tags;
pub mod versions;
