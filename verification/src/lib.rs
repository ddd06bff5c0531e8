//! Decision and text-building logic of an offline OpenSSL PKI manager.
pub mod text;
pub mod order;
pub mod tree;
pub mod model;
pub mod subject;
pub mod rules;
pub mod secret;
pub mod layout;
pub mod plans;
pub mod certificate;
pub mod report;
pub mod ops;
pub mod create;
pub mod dispatch;
pub mod display;
pub mod redact;
pub mod laws;
pub mod tree_order;
pub mod rule_laws;
