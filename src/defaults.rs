//! Default backend settings and their checks.
use vstd::prelude::*;
use crate::error::ConfigError;

verus! {

/// The default API base URL.
pub fn default_api_base() -> (r: String)
    ensures
        r@ == "https://api.deepseek.com"@,
{
    "https://api.deepseek.com".to_owned()
}

/// The default model.
pub fn default_model() -> (r: String)
    ensures
        r@ == "deepseek-reasoner"@,
{
    "deepseek-reasoner".to_owned()
}

/// The default request timeout in seconds: ten minutes, as translations
/// by a reasoning model can take long.
pub fn default_timeout() -> (r: u64)
    ensures
        r == 600,
{
    600
}

/// The default number of retries of a failed request.
pub fn default_max_retries() -> (r: u32)
    ensures
        r == 3,
{
    3
}

/// The default cap on output tokens: none.
pub fn default_max_tokens() -> (r: Option<u32>)
    ensures
        r is None,
{
    None
}

/// The default token budget of a chunk.
pub fn default_max_chunk_tokens() -> (r: usize)
    ensures
        r == 4000,
{
    4000
}

/// The default number of requests in flight at once.
pub fn default_concurrency() -> (r: usize)
    ensures
        r == 2,
{
    2
}

/// Smallest allowed token budget of a chunk.
pub const MIN_CHUNK_TOKENS: usize = 100;

/// Number of settings problems: temperature outside `0.0 ..= 2.0`, a zero
/// timeout, a chunk budget under the minimum, no concurrency.
pub open spec fn settings_problem_count(
    temperature_in_range: bool,
    timeout_secs: u64,
    max_chunk_tokens: usize,
    concurrency: usize,
) -> nat {
    (if temperature_in_range { 0nat } else { 1nat }) + (if timeout_secs == 0 { 1nat } else { 0nat })
        + (if max_chunk_tokens < MIN_CHUNK_TOKENS { 1nat } else { 0nat }) + (if concurrency < 1 {
        1nat
    } else {
        0nat
    })
}

/// Checks the backend settings and reports every problem at once. Whether
/// the temperature lies in `0.0 ..= 2.0` is passed in.
pub fn check_settings(
    temperature_in_range: bool,
    timeout_secs: u64,
    max_chunk_tokens: usize,
    concurrency: usize,
) -> (r: Result<(), ConfigError>)
    ensures
        r is Ok <==> settings_problem_count(temperature_in_range, timeout_secs, max_chunk_tokens, concurrency) == 0,
        r matches Err(e) ==> (e matches ConfigError::MultipleErrors(ms) && ms@.len()
            == settings_problem_count(temperature_in_range, timeout_secs, max_chunk_tokens, concurrency)),
{
    let mut errors: Vec<String> = Vec::new();
    if !temperature_in_range {
        errors.push("temperature must be between 0.0 and 2.0".to_owned());
    }
    if timeout_secs == 0 {
        errors.push("timeout_secs must be greater than 0".to_owned());
    }
    if max_chunk_tokens < MIN_CHUNK_TOKENS {
        errors.push("max_chunk_tokens must be at least 100".to_owned());
    }
    if concurrency < 1 {
        errors.push("concurrency must be at least 1".to_owned());
    }
    if errors.len() == 0 {
        Ok(())
    } else {
        Err(ConfigError::MultipleErrors(errors))
    }
}

} // verus!
