use vstd::prelude::*;
use crate::text::{append, lower_of, lowercase, owned, text_eq};

verus! {

/// A translation service and the key to use it.
#[derive(Debug, Clone)]
pub struct ApiConfig {
    pub provider: ApiProvider,
    pub api_key: String,
}

/// The translation services that are supported.
#[derive(Debug, Clone, Copy, PartialEq, Eq, Structural)]
pub enum ApiProvider {
    DeepL,
    OpenAI,
}

/// The provider that a name selects, compared without regard to case.
pub open spec fn provider_named(lowered: Seq<char>) -> Option<ApiProvider> {
    if lowered == "deepl"@ {
        Some(ApiProvider::DeepL)
    } else if lowered == "openai"@ {
        Some(ApiProvider::OpenAI)
    } else {
        None
    }
}

/// The environment variable that holds a provider's key.
pub open spec fn env_var_of(p: ApiProvider) -> Seq<char> {
    match p {
        ApiProvider::DeepL => "DEEPL_API_KEY"@,
        ApiProvider::OpenAI => "OPENAI_API_KEY"@,
    }
}

/// Why no API configuration could be made.
#[derive(Debug, Clone, PartialEq, Eq)]
pub enum ConfigError {
    UnknownProvider(String),
    EmptyCliKey,
    EmptyEnvKey(String),
    MissingKey(String),
}

impl ConfigError {
    /// The message shown to a user.
    pub fn message(&self) -> (r: String)
        ensures
            r@ == match self {
                ConfigError::UnknownProvider(s) => "Unknown provider: "@ + s@
                    + ". Supported: deepl, openai"@,
                ConfigError::EmptyCliKey => "API key provided via CLI is empty"@,
                ConfigError::EmptyEnvKey(v) => "Environment variable "@ + v@ + " is empty"@,
                ConfigError::MissingKey(v) => "API key not found. Set "@ + v@
                    + " environment variable or use --api-key flag"@,
            },
    {
        match self {
            ConfigError::UnknownProvider(s) => {
                let mut r = owned("Unknown provider: ");
                append(&mut r, s.as_str());
                append(&mut r, ". Supported: deepl, openai");
                r
            },
            ConfigError::EmptyCliKey => owned("API key provided via CLI is empty"),
            ConfigError::EmptyEnvKey(v) => {
                let mut r = owned("Environment variable ");
                append(&mut r, v.as_str());
                append(&mut r, " is empty");
                r
            },
            ConfigError::MissingKey(v) => {
                let mut r = owned("API key not found. Set ");
                append(&mut r, v.as_str());
                append(&mut r, " environment variable or use --api-key flag");
                r
            },
        }
    }
}

impl ApiProvider {
    pub fn from_str(s: &str) -> (r: Result<ApiProvider, ConfigError>)
        ensures
            match provider_named(lower_of(s@)) {
                Some(p) => r == Ok::<ApiProvider, ConfigError>(p),
                None => r matches Err(ConfigError::UnknownProvider(n)) && n@ == s@,
            },
    {
        let l = lowercase(s);
        if text_eq(l.as_str(), "deepl") {
            Ok(ApiProvider::DeepL)
        } else if text_eq(l.as_str(), "openai") {
            Ok(ApiProvider::OpenAI)
        } else {
            Err(ConfigError::UnknownProvider(owned(s)))
        }
    }

    /// The name under which the provider is selected.
    pub fn name(&self) -> (r: &'static str)
        ensures
            r@ == match self {
                ApiProvider::DeepL => "deepl"@,
                ApiProvider::OpenAI => "openai"@,
            },
    {
        match self {
            ApiProvider::DeepL => "deepl",
            ApiProvider::OpenAI => "openai",
        }
    }

    pub fn env_var_name(&self) -> (r: &'static str)
        ensures
            r@ == env_var_of(*self),
    {
        match self {
            ApiProvider::DeepL => "DEEPL_API_KEY",
            ApiProvider::OpenAI => "OPENAI_API_KEY",
        }
    }
}

/// Chooses the API key: the command line first, then the environment.
pub struct ConfigManager;

impl ConfigManager {
    /// The configuration for a provider name, given the key from the command
    /// line and the value of the provider's environment variable, if set.
    pub fn get_api_config(provider: &str, cli_api_key: Option<&str>, env_api_key: Option<&str>) -> (r:
        Result<ApiConfig, ConfigError>)
        ensures
            match provider_named(lower_of(provider@)) {
                None => r matches Err(ConfigError::UnknownProvider(n)) && n@ == provider@,
                Some(p) => match cli_api_key {
                    Some(k) => if k@.len() == 0 {
                        r == Err::<ApiConfig, ConfigError>(ConfigError::EmptyCliKey)
                    } else {
                        r matches Ok(c) && c.provider == p && c.api_key@ == k@
                    },
                    None => match env_api_key {
                        Some(k) => if k@.len() == 0 {
                            r matches Err(ConfigError::EmptyEnvKey(v)) && v@ == env_var_of(p)
                        } else {
                            r matches Ok(c) && c.provider == p && c.api_key@ == k@
                        },
                        None => r matches Err(ConfigError::MissingKey(v)) && v@ == env_var_of(p),
                    },
                },
            },
    {
        let p = match ApiProvider::from_str(provider) {
            Ok(p) => p,
            Err(e) => {
                return Err(e);
            },
        };
        match cli_api_key {
            Some(k) => {
                if k.is_empty() {
                    return Err(ConfigError::EmptyCliKey);
                }
                Ok(ApiConfig { provider: p, api_key: owned(k) })
            },
            None => match env_api_key {
                Some(k) => {
                    if k.is_empty() {
                        return Err(ConfigError::EmptyEnvKey(owned(p.env_var_name())));
                    }
                    Ok(ApiConfig { provider: p, api_key: owned(k) })
                },
                None => Err(ConfigError::MissingKey(owned(p.env_var_name()))),
            },
        }
    }
}

} // verus!
