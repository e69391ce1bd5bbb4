//! Host-side validation of plugin contributions: provider DTO validators,
//! the plugin registry, and the resources task validators.

pub mod name_map;
pub mod plugin_api;
pub mod provider_api;
pub mod provider_validation;
pub mod registry;
pub mod resources_api;
pub mod resources_laws;
pub mod resources_validation;
pub mod text;
