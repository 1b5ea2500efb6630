//! Search-engine crawler logic: text classification, query building,
//! link and metadata extraction, sitemap traversal and the decisions
//! around user reactions.

pub mod text;
pub mod model;
pub mod classify;
pub mod urlenc;
pub mod query;
pub mod settings;
pub mod solr;
pub mod html;
pub mod domain;
pub mod crawler;
pub mod sitemap;
pub mod react;
