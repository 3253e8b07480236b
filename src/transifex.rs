//! The Transifex project description: `transifex.yaml` and `.tx/config`.

pub mod project_file;
pub mod rest_api;
pub mod tx_config_file;
pub mod yaml_file;
