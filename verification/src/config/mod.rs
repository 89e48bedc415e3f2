//! Configuration: key specifications, the configuration's sections and
//! defaults, and the key tables built from them.

pub mod bindings;
pub mod default_config;
pub mod display;
pub mod keys;
pub mod sections;
