//! Choosing the project description: `transifex.yaml` first, else `.tx/config`.

use vstd::prelude::*;
use super::tx_config_file::{TxConfig, TxConfigLoadError, is_yaml_of};
use super::yaml_file::{LoadTxYamlError, TransifexYaml};

verus! {

#[derive(Debug, Clone, PartialEq, Eq)]
pub enum TxProjectFileLoadError {
    TxYamlLoadError(LoadTxYamlError),
    ConvertError(TxConfigLoadError),
}

/// The project description from what was found: the `transifex.yaml` file when it
/// loaded; else the converted `.tx/config` file when that loaded; else the error
/// of the `transifex.yaml` file. Each found file comes with its path.
pub fn try_load_transifex_project_file(
    yaml: Result<(String, TransifexYaml), LoadTxYamlError>,
    tx_config: Option<Result<(String, TxConfig), TxConfigLoadError>>,
) -> (r: Result<(String, TransifexYaml), TxProjectFileLoadError>)
    ensures
        yaml is Ok ==> r is Ok && r->Ok_0 == yaml->Ok_0,
        yaml is Err && tx_config is Some && tx_config->0 is Ok ==> r is Ok && r->Ok_0.0 == tx_config->0->Ok_0.0
            && is_yaml_of(tx_config->0->Ok_0.1, r->Ok_0.1),
        yaml is Err && !(tx_config is Some && tx_config->0 is Ok) ==> r == Err::<(String, TransifexYaml), _>(
            TxProjectFileLoadError::TxYamlLoadError(yaml->Err_0),
        ),
{
    match yaml {
        Ok(found) => Ok(found),
        Err(e) => match tx_config {
            Some(Ok((path, config))) => Ok((path, config.to_transifex_yaml())),
            _ => Err(TxProjectFileLoadError::TxYamlLoadError(e)),
        },
    }
}

} // verus!
