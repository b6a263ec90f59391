//! The provider configuration: which model service to call, and how.
use vstd::prelude::*;

verus! {

broadcast use vstd::string::group_string_axioms;

/// Where the configuration is read from.
pub const PATH: &'static str = "./provider.toml";

/// The API family of the model service.
#[derive(Debug, Clone, Copy, PartialEq, Eq, Structural)]
pub enum ProviderType {
    OpenAI,
    Anthropic,
}

/// How much effort the model spends on reasoning.
#[derive(Debug, Clone, Copy, PartialEq, Eq, Structural)]
pub enum Reasoning {
    Low,
    Medium,
    High,
    Xhigh,
}

/// The configuration of the model service.
#[derive(Debug)]
pub struct Provider {
    pub base_url: String,
    pub provider_type: ProviderType,
    pub api_key: String,
    pub model: String,
    pub reasoning: Reasoning,
    pub api_rate: i32,
}

/// `std::io::Error`, the error of reading the configuration file.
#[verifier::external_type_specification]
#[verifier::external_body]
pub struct ExIoError(std::io::Error);

/// `toml::de::Error`, the error of parsing the configuration.
#[verifier::external_type_specification]
#[verifier::external_body]
pub struct ExTomlError(toml::de::Error);

/// Why the configuration could not be loaded.
#[derive(Debug)]
pub enum ProviderError {
    ConfigNotFound { path: String, source: std::io::Error },
    ConfigReadFailed { path: String, source: std::io::Error },
    ConfigParseFailed(toml::de::Error),
}

/// `std::io::Error::kind` compared with `ErrorKind::NotFound`. What the kind
/// of an error is depends on how the read failed; nothing is claimed of it.
#[verifier::external_body]
fn io_error_is_not_found(error: &std::io::Error) -> bool {
    error.kind() == std::io::ErrorKind::NotFound
}

/// The text that `Display` shows for an error.
pub open spec fn provider_error_message(e: ProviderError) -> Seq<char> {
    match e {
        ProviderError::ConfigNotFound { path, .. } => "provider config not found: "@ + path@,
        ProviderError::ConfigReadFailed { path, .. } => "failed to read provider config: "@ + path@,
        ProviderError::ConfigParseFailed(_) => "failed to parse provider config (TOML)"@,
    }
}

impl ProviderError {
    /// The error for a failed read of the configuration at `path`: not found
    /// where `not_found` holds, else a failed read; `source` is kept.
    pub fn from_read_outcome(path: &str, not_found: bool, source: std::io::Error) -> (r: Self)
        ensures
            not_found ==> r == (ProviderError::ConfigNotFound { path: r->ConfigNotFound_path, source }),
            not_found ==> r->ConfigNotFound_path@ == path@,
            !not_found ==> r == (ProviderError::ConfigReadFailed { path: r->ConfigReadFailed_path, source }),
            !not_found ==> r->ConfigReadFailed_path@ == path@,
    {
        if not_found {
            ProviderError::ConfigNotFound { path: path.to_string(), source }
        } else {
            ProviderError::ConfigReadFailed { path: path.to_string(), source }
        }
    }

    /// The error for a failed read of the configuration at `path`, told
    /// apart by the kind of `source`.
    pub fn from_read_error(path: &str, source: std::io::Error) -> (r: Self)
        ensures
            match r {
                ProviderError::ConfigNotFound { path: p, source: s } => p@ == path@ && s == source,
                ProviderError::ConfigReadFailed { path: p, source: s } => p@ == path@ && s == source,
                ProviderError::ConfigParseFailed(_) => false,
            },
    {
        let not_found = io_error_is_not_found(&source);
        Self::from_read_outcome(path, not_found, source)
    }

    /// What `Display` shows for the error.
    pub fn message(&self) -> (r: String)
        ensures
            r@ == provider_error_message(*self),
    {
        match self {
            ProviderError::ConfigNotFound { path, .. } => {
                let mut m = "provider config not found: ".to_string();
                m.append(path.as_str());
                m
            },
            ProviderError::ConfigReadFailed { path, .. } => {
                let mut m = "failed to read provider config: ".to_string();
                m.append(path.as_str());
                m
            },
            ProviderError::ConfigParseFailed(_) => "failed to parse provider config (TOML)".to_string(),
        }
    }
}

} // verus!
