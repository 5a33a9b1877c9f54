//! Error types of the library.
use vstd::prelude::*;
use crate::text::{join_sep, join_strings, push_str_chars, string_of};

verus! {

/// Configuration errors: reported before any translation starts.
#[derive(Debug, Clone, PartialEq, Eq)]
pub enum ConfigError {
    TomlParse(String),
    MissingField(String),
    InvalidPath(String),
    InvalidValue(String),
    MultipleErrors(Vec<String>),
}

/// Errors while preparing one file.
#[derive(Debug, Clone, PartialEq, Eq)]
pub enum PreprocessError {
    YamlParse(String),
    InvalidStructure(String),
    FixFailed(String),
    FileTooLarge(String),
}

/// Errors of one chunk's translation.
#[derive(Debug, Clone, PartialEq, Eq)]
pub enum TranslateError {
    ApiRequest(String),
    InvalidResponse(String),
    GlossaryError(String),
    ValidationFailed(String),
    RateLimited,
    AuthenticationFailed,
}

/// Errors while reassembling or writing one file.
#[derive(Debug, Clone, PartialEq, Eq)]
pub enum PostprocessError {
    MergeFailed(String),
    WriteFailed(String),
    InconsistentSlices,
}

/// Any error of the translation pipeline.
#[derive(Debug, Clone, PartialEq, Eq)]
pub enum TranslationError {
    Config(ConfigError),
    Preprocess(PreprocessError),
    Translate(TranslateError),
    Postprocess(PostprocessError),
    Io(String),
    FileNotFound(String),
    InvalidYaml(String),
    ApiError(String),
    ValidationError(String),
    MissingEnvVar(String),
    AsyncError(String),
}

/// `prefix` followed by `payload`, as a string.
fn prefixed(prefix: &str, payload: &str) -> (r: String)
    ensures
        r@ == prefix@ + payload@,
{
    let mut v: Vec<char> = Vec::new();
    push_str_chars(&mut v, prefix);
    push_str_chars(&mut v, payload);
    string_of(v.as_slice())
}

pub open spec fn config_text(e: ConfigError) -> Seq<char> {
    match e {
        ConfigError::TomlParse(s) => "Failed to parse TOML config: "@ + s@,
        ConfigError::MissingField(s) => "Missing required field: "@ + s@,
        ConfigError::InvalidPath(s) => "Invalid path: "@ + s@,
        ConfigError::InvalidValue(s) => "Invalid value: "@ + s@,
        ConfigError::MultipleErrors(ms) => "Multiple errors: "@ + join_sep(
            ms@.map_values(|s: String| s@),
            "; "@,
        ),
    }
}

pub open spec fn preprocess_text(e: PreprocessError) -> Seq<char> {
    match e {
        PreprocessError::YamlParse(s) => "YAML parsing error: "@ + s@,
        PreprocessError::InvalidStructure(s) => "Invalid YAML structure: "@ + s@,
        PreprocessError::FixFailed(s) => "Failed to fix YAML format: "@ + s@,
        PreprocessError::FileTooLarge(s) => "File too large to process: "@ + s@,
    }
}

pub open spec fn translate_text(e: TranslateError) -> Seq<char> {
    match e {
        TranslateError::ApiRequest(s) => "API request failed: "@ + s@,
        TranslateError::InvalidResponse(s) => "Invalid API response: "@ + s@,
        TranslateError::GlossaryError(s) => "Glossary error: "@ + s@,
        TranslateError::ValidationFailed(s) => "Validation failed: "@ + s@,
        TranslateError::RateLimited => "Rate limited"@,
        TranslateError::AuthenticationFailed => "Authentication failed"@,
    }
}

pub open spec fn postprocess_text(e: PostprocessError) -> Seq<char> {
    match e {
        PostprocessError::MergeFailed(s) => "Failed to merge translations: "@ + s@,
        PostprocessError::WriteFailed(s) => "Failed to write output: "@ + s@,
        PostprocessError::InconsistentSlices => "Inconsistent translation slices"@,
    }
}

/// The human-readable text of an error.
pub open spec fn error_text(e: TranslationError) -> Seq<char> {
    match e {
        TranslationError::Config(c) => "Configuration error: "@ + config_text(c),
        TranslationError::Preprocess(p) => "Preprocessing error: "@ + preprocess_text(p),
        TranslationError::Translate(t) => "Translation error: "@ + translate_text(t),
        TranslationError::Postprocess(p) => "Postprocessing error: "@ + postprocess_text(p),
        TranslationError::Io(s) => "IO error: "@ + s@,
        TranslationError::FileNotFound(s) => "File not found: "@ + s@,
        TranslationError::InvalidYaml(s) => "Invalid YAML format: "@ + s@,
        TranslationError::ApiError(s) => "API error: "@ + s@,
        TranslationError::ValidationError(s) => "Validation error: "@ + s@,
        TranslationError::MissingEnvVar(s) => "Missing environment variable: "@ + s@,
        TranslationError::AsyncError(s) => "Batch failed: "@ + s@,
    }
}

impl ConfigError {
    /// The human-readable text of the error.
    pub fn message(&self) -> (r: String)
        ensures
            r@ == config_text(*self),
    {
        match self {
            ConfigError::TomlParse(s) => prefixed("Failed to parse TOML config: ", s.as_str()),
            ConfigError::MissingField(s) => prefixed("Missing required field: ", s.as_str()),
            ConfigError::InvalidPath(s) => prefixed("Invalid path: ", s.as_str()),
            ConfigError::InvalidValue(s) => prefixed("Invalid value: ", s.as_str()),
            ConfigError::MultipleErrors(ms) => {
                let j = join_strings(ms, "; ");
                prefixed("Multiple errors: ", j.as_str())
            },
        }
    }
}

impl PreprocessError {
    /// The human-readable text of the error.
    pub fn message(&self) -> (r: String)
        ensures
            r@ == preprocess_text(*self),
    {
        match self {
            PreprocessError::YamlParse(s) => prefixed("YAML parsing error: ", s.as_str()),
            PreprocessError::InvalidStructure(s) => prefixed("Invalid YAML structure: ", s.as_str()),
            PreprocessError::FixFailed(s) => prefixed("Failed to fix YAML format: ", s.as_str()),
            PreprocessError::FileTooLarge(s) => prefixed("File too large to process: ", s.as_str()),
        }
    }
}

impl TranslateError {
    /// The human-readable text of the error.
    pub fn message(&self) -> (r: String)
        ensures
            r@ == translate_text(*self),
    {
        match self {
            TranslateError::ApiRequest(s) => prefixed("API request failed: ", s.as_str()),
            TranslateError::InvalidResponse(s) => prefixed("Invalid API response: ", s.as_str()),
            TranslateError::GlossaryError(s) => prefixed("Glossary error: ", s.as_str()),
            TranslateError::ValidationFailed(s) => prefixed("Validation failed: ", s.as_str()),
            TranslateError::RateLimited => "Rate limited".to_owned(),
            TranslateError::AuthenticationFailed => "Authentication failed".to_owned(),
        }
    }
}

impl PostprocessError {
    /// The human-readable text of the error.
    pub fn message(&self) -> (r: String)
        ensures
            r@ == postprocess_text(*self),
    {
        match self {
            PostprocessError::MergeFailed(s) => prefixed("Failed to merge translations: ", s.as_str()),
            PostprocessError::WriteFailed(s) => prefixed("Failed to write output: ", s.as_str()),
            PostprocessError::InconsistentSlices => "Inconsistent translation slices".to_owned(),
        }
    }
}

impl TranslationError {
    /// The human-readable text of the error.
    pub fn message(&self) -> (r: String)
        ensures
            r@ == error_text(*self),
    {
        match self {
            TranslationError::Config(c) => {
                let m = c.message();
                prefixed("Configuration error: ", m.as_str())
            },
            TranslationError::Preprocess(p) => {
                let m = p.message();
                prefixed("Preprocessing error: ", m.as_str())
            },
            TranslationError::Translate(t) => {
                let m = t.message();
                prefixed("Translation error: ", m.as_str())
            },
            TranslationError::Postprocess(p) => {
                let m = p.message();
                prefixed("Postprocessing error: ", m.as_str())
            },
            TranslationError::Io(s) => prefixed("IO error: ", s.as_str()),
            TranslationError::FileNotFound(s) => prefixed("File not found: ", s.as_str()),
            TranslationError::InvalidYaml(s) => prefixed("Invalid YAML format: ", s.as_str()),
            TranslationError::ApiError(s) => prefixed("API error: ", s.as_str()),
            TranslationError::ValidationError(s) => prefixed("Validation error: ", s.as_str()),
            TranslationError::MissingEnvVar(s) => prefixed("Missing environment variable: ", s.as_str()),
            TranslationError::AsyncError(s) => prefixed("Batch failed: ", s.as_str()),
        }
    }
}

} // verus!
