//! Verified core of the invoice application API: command request hashing,
//! canonical JSON, write-command header validation, response shaping and the
//! decisions of the invoice store's workflows.

pub mod text;
pub mod json;
pub mod command_headers;
pub mod json_laws;
pub mod json_normal;
pub mod json_parse;
pub mod invoice_api;
pub mod routes;
pub mod repository;
pub mod bootstrap;
