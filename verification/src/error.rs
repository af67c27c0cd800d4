use vstd::prelude::*;

verus! {

/// Errors found while validating workspace input.
#[derive(Debug)]
pub enum ConfigError {
    /// A color that is not of the form `#RRGGBB`.
    InvalidHexColor(String),
    /// A workspace name that is not of the form `[a-z0-9][a-z0-9-]*`.
    InvalidWorkspaceName(String),
    /// A workspace name that occurs more than once.
    DuplicateWorkspace(String),
}

/// The human-readable text of a configuration error.
pub open spec fn config_error_message(e: ConfigError) -> Seq<char> {
    match e {
        ConfigError::InvalidHexColor(s) => "invalid hex color '"@ + s@
            + "': must be #RRGGBB format"@,
        ConfigError::InvalidWorkspaceName(s) => "invalid workspace name '"@ + s@
            + "': must be [a-z0-9][a-z0-9-]*"@,
        ConfigError::DuplicateWorkspace(s) => "duplicate workspace name '"@ + s@ + "'"@,
    }
}

impl ConfigError {
    /// The message that describes this error.
    pub fn message(&self) -> (m: String)
        ensures
            m@ == config_error_message(*self),
    {
        match self {
            ConfigError::InvalidHexColor(s) => {
                let mut m = String::from_str("invalid hex color '");
                m.append(s.as_str());
                m.append("': must be #RRGGBB format");
                m
            },
            ConfigError::InvalidWorkspaceName(s) => {
                let mut m = String::from_str("invalid workspace name '");
                m.append(s.as_str());
                m.append("': must be [a-z0-9][a-z0-9-]*");
                m
            },
            ConfigError::DuplicateWorkspace(s) => {
                let mut m = String::from_str("duplicate workspace name '");
                m.append(s.as_str());
                m.append("'");
                m
            },
        }
    }
}

} // verus!
