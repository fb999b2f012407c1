//! Invitation-mail digest: mail filtering, a deduplicating event store and
//! template rendering, with machine-checked contracts.

pub mod data_sql;
pub mod email;
pub mod email_abstract;
pub mod event;
pub mod insert_html;
pub mod json;
pub mod mime;
pub mod text;
