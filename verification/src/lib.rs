//! Verified core of a personal operating system.
pub mod text;
pub mod json;
pub mod catalog;
pub mod timeline;
pub mod finance;
pub mod capture;
pub mod records;
pub mod clock;
pub mod agent;
pub mod fingerprint;
pub mod chief;
pub mod mental_models;
pub mod decision_intelligence;
pub mod providers;
pub mod operations;
pub mod credentials;
