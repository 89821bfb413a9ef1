//! Hardware fingerprint manifests: parsing of the platform's hardware
//! descriptions, a set-based diff engine for tamper detection, and the
//! quantised CPU timing signature.
pub mod distribution;
pub mod identity;
pub mod json;
pub mod manifest;
pub mod report;
pub mod sys_info;
pub mod text;
