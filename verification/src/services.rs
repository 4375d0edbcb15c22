//! Service-layer logic: the table-dump parsers, the bookmark backup format,
//! and the decisions of the reading and ingest flows.

pub mod sql_dump;
pub mod redirect_ingest;
pub mod category_ingest;
pub mod tome;
pub mod bookmark_export;
pub mod geotag_ingest;
pub mod sql_resume;
