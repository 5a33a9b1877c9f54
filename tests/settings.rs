use paradox_mod_translator::defaults::{
    check_settings,
    default_api_base, default_concurrency, default_max_chunk_tokens, default_max_retries,
    default_max_tokens, default_model, default_timeout,
};

#[test]
fn backend_defaults() {
    assert_eq!(default_api_base(), "https://api.deepseek.com");
    assert_eq!(default_model(), "deepseek-reasoner");
    assert_eq!(default_timeout(), 600);
    assert_eq!(default_max_retries(), 3);
    assert_eq!(default_max_tokens(), None);
    assert_eq!(default_max_chunk_tokens(), 4000);
    assert_eq!(default_concurrency(), 2);
}

#[test]
fn settings_checks_report_every_problem() {
    assert!(check_settings(true, 600, 4000, 2).is_ok());
    match check_settings(false, 0, 10, 0) {
        Err(paradox_mod_translator::error::ConfigError::MultipleErrors(ms)) => assert_eq!(ms.len(), 4),
        other => panic!("unexpected {:?}", other),
    }
    match check_settings(true, 600, 99, 1) {
        Err(paradox_mod_translator::error::ConfigError::MultipleErrors(ms)) => {
            assert_eq!(ms, vec!["max_chunk_tokens must be at least 100".to_string()])
        }
        other => panic!("unexpected {:?}", other),
    }
}
