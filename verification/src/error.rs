use vstd::prelude::*;

verus! {

/// Errors raised while compiling a layout.
#[derive(Debug)]
pub enum ConfigError {
    Toml(String),
    GridParse(String),
    MissingField(String),
    Conflict(String),
}

/// Mathematical model of a `ConfigError`.
pub enum ConfigErrorV {
    Toml(Seq<char>),
    GridParse(Seq<char>),
    MissingField(Seq<char>),
    Conflict(Seq<char>),
}

impl View for ConfigError {
    type V = ConfigErrorV;

    open spec fn view(&self) -> ConfigErrorV {
        match self {
            ConfigError::Toml(s) => ConfigErrorV::Toml(s@),
            ConfigError::GridParse(s) => ConfigErrorV::GridParse(s@),
            ConfigError::MissingField(s) => ConfigErrorV::MissingField(s@),
            ConfigError::Conflict(s) => ConfigErrorV::Conflict(s@),
        }
    }
}

pub open spec fn error_message(e: ConfigErrorV) -> Seq<char> {
    match e {
        ConfigErrorV::Toml(s) => "TOML parse error: "@ + s,
        ConfigErrorV::GridParse(s) => "grid parse error: "@ + s,
        ConfigErrorV::MissingField(s) => "missing required field: "@ + s,
        ConfigErrorV::Conflict(s) => "rule conflict: "@ + s,
    }
}

impl ConfigError {
    /// The human-readable description of the error.
    pub fn message(&self) -> (s: String)
        ensures
            s@ == error_message(self@),
    {
        match self {
            ConfigError::Toml(m) => String::from_str("TOML parse error: ").concat(m.as_str()),
            ConfigError::GridParse(m) => String::from_str("grid parse error: ").concat(m.as_str()),
            ConfigError::MissingField(m) => String::from_str("missing required field: ").concat(
                m.as_str(),
            ),
            ConfigError::Conflict(m) => String::from_str("rule conflict: ").concat(m.as_str()),
        }
    }
}

} // verus!
