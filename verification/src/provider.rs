//! API providers: their endpoints and models, and the environment that selects them.
use vstd::prelude::*;

verus! {

/// Errors of provider configuration.
#[derive(Debug, Clone, PartialEq, Eq)]
pub enum AppError {
    ConfigFileNotFound(String),
    ConfigParseError(String),
    ProviderNotFound(String),
    ApiKeyNotFound(String),
    ProcessLaunchFailed(String),
}

impl AppError {
    /// The text of the error.
    pub fn message(&self) -> (r: String)
        ensures
            r@ == match *self {
                AppError::ConfigFileNotFound(p) => "Config file '"@ + p@ + "' not found"@,
                AppError::ConfigParseError(p) => "Failed to parse config file "@ + p@,
                AppError::ProviderNotFound(n) => "Provider '"@ + n@ + "' not found in config"@,
                AppError::ApiKeyNotFound(n) => "API key not found for provider '"@ + n@ + "'"@,
                AppError::ProcessLaunchFailed(m) => "Failed to launch process: "@ + m@,
            },
    {
        let mut m = String::new();
        match self {
            AppError::ConfigFileNotFound(p) => {
                m.push_str("Config file '");
                m.push_str(p.as_str());
                m.push_str("' not found");
            },
            AppError::ConfigParseError(p) => {
                m.push_str("Failed to parse config file ");
                m.push_str(p.as_str());
            },
            AppError::ProviderNotFound(n) => {
                m.push_str("Provider '");
                m.push_str(n.as_str());
                m.push_str("' not found in config");
            },
            AppError::ApiKeyNotFound(n) => {
                m.push_str("API key not found for provider '");
                m.push_str(n.as_str());
                m.push_str("'");
            },
            AppError::ProcessLaunchFailed(s) => {
                m.push_str("Failed to launch process: ");
                m.push_str(s.as_str());
            },
        }
        proof {
            reveal_strlit("");
        }
        m
    }
}

/// An API provider: its endpoint and the model of each tier.
#[derive(Debug, Clone, PartialEq, Eq)]
pub struct Provider {
    pub api_endpoint: String,
    pub opus_model: String,
    pub sonnet_model: String,
    pub haiku_model: String,
}

/// The providers of a configuration file, by name.
#[derive(Debug, Clone, PartialEq, Eq)]
pub struct ProviderConfig {
    pub providers: Vec<(String, Provider)>,
}

impl Provider {
    /// The environment that points the wrapped CLI at this provider with this API key.
    pub fn get_env_vars(&self, api_key: String) -> (r: Vec<(String, String)>)
        ensures
            r@.len() == 5,
            r@[0].0@ == "ANTHROPIC_BASE_URL"@ && r@[0].1@ == self.api_endpoint@,
            r@[1].0@ == "ANTHROPIC_DEFAULT_OPUS_MODEL"@ && r@[1].1@ == self.opus_model@,
            r@[2].0@ == "ANTHROPIC_DEFAULT_SONNET_MODEL"@ && r@[2].1@ == self.sonnet_model@,
            r@[3].0@ == "ANTHROPIC_DEFAULT_HAIKU_MODEL"@ && r@[3].1@ == self.haiku_model@,
            r@[4].0@ == "ANTHROPIC_AUTH_TOKEN"@ && r@[4].1@ == api_key@,
    {
        vec![
            ("ANTHROPIC_BASE_URL".to_owned(), self.api_endpoint.clone()),
            ("ANTHROPIC_DEFAULT_OPUS_MODEL".to_owned(), self.opus_model.clone()),
            ("ANTHROPIC_DEFAULT_SONNET_MODEL".to_owned(), self.sonnet_model.clone()),
            ("ANTHROPIC_DEFAULT_HAIKU_MODEL".to_owned(), self.haiku_model.clone()),
            ("ANTHROPIC_AUTH_TOKEN".to_owned(), api_key),
        ]
    }
}

} // verus!
