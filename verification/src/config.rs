//! Runtime configuration: advertised name, shared key and the optional custom
//! info/command lists.
use vstd::prelude::*;
use vstd::string::StringExecFns;
use std::path::PathBuf;

verus! {

/// Default advertised BLE name.
pub const NAME_DEFAULT: &'static str = "raspberrypi";

/// Default shared key expected in client requests.
pub const KEY_DEFAULT: &'static str = "pisugar";

#[verifier::external_type_specification]
#[verifier::external_body]
pub struct ExPathBuf(PathBuf);

/// Service configuration.
#[derive(Debug, Clone)]
pub struct AppConfig {
    pub name: String,
    pub key: String,
    pub custom_config_path: Option<PathBuf>,
    pub custom_config: Option<CustomConfigFile>,
}

impl AppConfig {
    pub fn from_args(
        custom_config_path: Option<PathBuf>,
        name: String,
        key: String,
        custom_config: Option<CustomConfigFile>,
    ) -> (r: Self)
        ensures
            r.name == name,
            r.key == key,
            r.custom_config_path == custom_config_path,
            r.custom_config == custom_config,
    {
        AppConfig { name, key, custom_config_path, custom_config }
    }
}

impl Default for AppConfig {
    fn default() -> (r: Self)
        ensures
            r.name@ == NAME_DEFAULT@,
            r.key@ == KEY_DEFAULT@,
            r.custom_config_path is None,
            r.custom_config is None,
    {
        AppConfig {
            name: String::from_str(NAME_DEFAULT),
            key: String::from_str(KEY_DEFAULT),
            custom_config_path: None,
            custom_config: None,
        }
    }
}

/// Contents of `custom_config.json`.
#[derive(Debug, Clone, Default)]
pub struct CustomConfigFile {
    pub info: Vec<CustomInfoItem>,
    pub commands: Vec<CustomCommandItem>,
}

/// A custom info item: a shell command polled every `interval` seconds.
#[derive(Debug, Clone)]
pub struct CustomInfoItem {
    pub label: String,
    pub command: String,
    pub interval: Option<u64>,
}

/// A custom command a client may trigger.
#[derive(Debug, Clone)]
pub struct CustomCommandItem {
    pub label: String,
    pub command: String,
    /// Optional explicit UUID (or suffix) addressing this command.
    pub uuid: Option<String>,
}

} // verus!
