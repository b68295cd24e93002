//! Assembly of hypermedia resource documents from application models.
pub mod text;
pub mod params;
pub mod identifier;
pub mod json;
pub mod uri;
pub mod relationship;
pub mod resource;
pub mod cache;
pub mod links;
pub mod status;
pub mod error;
pub mod related_data;
pub mod document;
pub mod context;
pub mod table;
