//! Access to the cloud storage services.

pub mod oauth;
