//! Transactional core of a multi-tenant collaboration backend: registration
//! completion, group lifecycle and bulk contact import over an in-memory store
//! whose operations either apply in full or leave every table untouched.

pub mod consts;
pub mod errors;
pub mod entities;
pub mod text;
pub mod ids;
pub mod store;
pub mod registration;
pub mod groups;
pub mod contacts;
pub mod files;
