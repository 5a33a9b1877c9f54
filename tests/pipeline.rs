use paradox_mod_translator::chunker::{split_yaml_content, FileChunk};
use paradox_mod_translator::config::{TranslationBatcher, TranslationTask};
use paradox_mod_translator::error::{ConfigError, TranslateError, TranslationError};
use paradox_mod_translator::glossary::{Glossary, RawGlossaryEntry};
use paradox_mod_translator::merger::TranslationSlice;
use paradox_mod_translator::models::{
    assistant_message, system_message, user_message, ChatChoice, ChatCompletionResponse, UsageStats,
};
use paradox_mod_translator::naming::{generate_target_filename, has_yaml_extension};
use paradox_mod_translator::preprocess::{
    fix_key_zero_format, fix_yaml_content, lang_header, normalize_indentation, normalize_text,
    quote_unquoted_values,
    strip_bom, trim_lang_header, validate_yaml_content,
};
use paradox_mod_translator::prompt::{build_system_prompt, NO_TERMS_MARKER};
use paradox_mod_translator::translator::{
    after_file, classify_status, collect_batch, task_result, TaskStep, retry_decision, retry_delay_ms, BatchScheduler, DispatchAction,
    StatusClass, Translator,
};
use paradox_mod_translator::validator::{contains_markers, extract_all_markers, FormatValidator};

fn glossary() -> Glossary {
    let rec = |id: &str, en: &str, zh: &str| RawGlossaryEntry {
        id: id.to_string(),
        fields: Some(vec![("1".to_string(), Some(en.to_string())), ("2".to_string(), Some(zh.to_string()))]),
    };
    Glossary::from_raw_entries(&vec![rec("minerals", "minerals", "矿物"), rec("energy", "energy", "能量")])
}

fn response(texts: &[&str]) -> ChatCompletionResponse {
    ChatCompletionResponse {
        id: "id".to_string(),
        object: "chat.completion".to_string(),
        created: 0,
        model: "m".to_string(),
        choices: texts
            .iter()
            .enumerate()
            .map(|(i, t)| ChatChoice {
                index: i as u32,
                message: assistant_message(t.to_string()),
                finish_reason: "stop".to_string(),
            })
            .collect(),
        usage: UsageStats { prompt_tokens: 1, completion_tokens: 1, total_tokens: 2 },
    }
}

#[test]
fn filename_derivation() {
    assert_eq!(
        generate_target_filename("l_english_events.yml", "english", "simp_chinese"),
        "l_simp_chinese_events.yml"
    );
    assert_eq!(
        generate_target_filename("events_l_english.yaml", "english", "french"),
        "events_l_french.yaml"
    );
    assert_eq!(generate_target_filename("mod_english.yml", "english", "german"), "mod_german.yml");
    assert_eq!(generate_target_filename("other.yml", "english", "german"), "other.yml");
    assert!(has_yaml_extension("a.yml"));
    assert!(has_yaml_extension("a.yaml"));
    assert!(!has_yaml_extension("a.txt"));
}

#[test]
fn markers_kept_give_no_issues() {
    let v = FormatValidator::new();
    assert!(v.validate("Gain £icon£ 5 $var$", "获得 £icon£ 5 $var$").is_empty());
    assert!(v.validate("Gain £icon£ 5 $var$", "$var$ and £icon£ gained").len() == 0);
}

#[test]
fn markers_changed_give_issues() {
    let v = FormatValidator::new();
    let issues = v.validate("Gain £icon£ 5 $var$", "获得 £icon£ 5");
    assert_eq!(issues, vec!["Variable markers mismatch. Original: [$var$], Translated: []".to_string()]);
    let issues = v.validate("Gain £icon£ 5 $var$", "£icon£ £icon£ $var$ §Y§");
    assert_eq!(issues.len(), 2);
    assert!(issues[0].starts_with("Icon markers mismatch"));
    assert!(issues[1].starts_with("Color markers mismatch"));
    let swapped = v.validate("$a$ $b$", "$b$ $a$");
    assert_eq!(swapped, vec!["Variable markers mismatch. Original: [$a$, $b$], Translated: [$b$, $a$]".to_string()]);
}

#[test]
fn marker_extraction() {
    assert_eq!(
        extract_all_markers("§Y£a£§ $v$ ££ $$ x$"),
        vec!["£a£".to_string(), "$v$".to_string(), "$ x$".to_string(), "§Y£a£§".to_string()]
    );
    assert!(contains_markers("a $b$"));
    assert!(!contains_markers("a $ b"));
    let v = FormatValidator::new();
    assert_eq!(v.extract_markers("£i£"), vec!["£i£".to_string()]);
}

#[test]
fn prompt_with_terms_and_without() {
    let g = glossary();
    let tpl = "Use:\n{{glossary_csv}}\nEnd";
    let p = build_system_prompt(tpl, &g, "english", "simp_chinese", "More Energy and minerals and energy");
    assert_eq!(p, "Use:\nenglish,simp_chinese\nenergy,能量\nminerals,矿物\nEnd");
    let none = build_system_prompt(tpl, &g, "english", "simp_chinese", "Nothing here");
    assert_eq!(none, format!("Use:\n{}\nEnd", NO_TERMS_MARKER));
}

#[test]
fn chunk_messages_and_response() {
    let t = Translator::new(glossary(), "P {{glossary_csv}}".to_string());
    let chunk = FileChunk {
        content: " k: \"energy $x$\"".to_string(),
        start_line: 3,
        end_line: 3,
        target_filename: "l_simp_chinese_a.yml".to_string(),
    };
    let msgs = t.chunk_messages(&chunk, "english", "simp_chinese");
    assert_eq!(msgs.len(), 2);
    assert_eq!(msgs[0].role, "system");
    assert_eq!(msgs[0].content, "P english,simp_chinese\nenergy,能量");
    assert_eq!(msgs[1].role, "user");
    assert_eq!(msgs[1].content, chunk.content);
    let (slice, issues) = t.finish_chunk(&chunk, &response(&[" k: \"能量\""])).unwrap();
    assert_eq!(slice.content, " k: \"能量\"");
    assert_eq!((slice.start_line, slice.end_line), (3, 3));
    assert_eq!(issues.len(), 1);
    let err = t.finish_chunk(&chunk, &response(&[]));
    assert!(matches!(err, Err(TranslationError::Translate(TranslateError::InvalidResponse(_)))));
    assert_eq!(system_message("s".to_string()).role, "system");
    assert_eq!(user_message("u".to_string()).role, "user");
    assert_eq!(t.build_prompt("english", "simp_chinese", "x"), format!("P {}", NO_TERMS_MARKER));
}

#[test]
fn batch_failure_is_isolated_and_reported() {
    let t = Translator::new(glossary(), "{{glossary_csv}}".to_string());
    let chunks = split_yaml_content("f.yml", "one\ntwo\nthree", 1).unwrap();
    assert_eq!(chunks.len(), 3);
    let mut calls = 0;
    let mut outcomes = Vec::new();
    for (i, c) in chunks.iter().enumerate() {
        let _messages = t.chunk_messages(c, "english", "simp_chinese");
        calls += 1;
        let outcome = if i == 1 {
            Err(TranslationError::ApiError("chunk 2: backend unavailable".to_string()))
        } else {
            t.finish_chunk(c, &response(&["ok"])).map(|(s, _)| s)
        };
        outcomes.push(outcome);
    }
    assert_eq!(calls, 3);
    match collect_batch(outcomes) {
        Err(TranslationError::AsyncError(msg)) => assert!(msg.contains("chunk 2: backend unavailable")),
        other => panic!("unexpected {:?}", other),
    }
    let fine = vec![
        Ok(TranslationSlice { content: "a".to_string(), start_line: 1, end_line: 1 }),
        Ok(TranslationSlice { content: "b".to_string(), start_line: 2, end_line: 2 }),
    ];
    let v = collect_batch(fine).unwrap();
    assert_eq!(v.len(), 2);
    assert_eq!(v[1].content, "b");
    match collect_batch(vec![Err(TranslationError::Io("x".to_string())), Err(TranslationError::Io("y".to_string()))]) {
        Err(TranslationError::AsyncError(msg)) => assert_eq!(msg, "IO error: x IO error: y"),
        other => panic!("unexpected {:?}", other),
    }
    let auth = collect_batch(vec![
        Err(TranslationError::Io("x".to_string())),
        Err(TranslationError::Translate(TranslateError::AuthenticationFailed)),
    ]);
    assert_eq!(auth.unwrap_err(), TranslationError::Translate(TranslateError::AuthenticationFailed));
}

#[test]
fn retry_policy() {
    assert_eq!(retry_decision(&TranslateError::AuthenticationFailed, 0, 3), None);
    assert_eq!(retry_decision(&TranslateError::RateLimited, 0, 3), Some(500));
    assert_eq!(retry_decision(&TranslateError::ApiRequest("t".to_string()), 2, 3), Some(4000));
    assert_eq!(retry_decision(&TranslateError::ApiRequest("t".to_string()), 3, 3), None);
    assert_eq!(retry_decision(&TranslateError::InvalidResponse("r".to_string()), 0, 3), None);
    let mut last = 0;
    for a in 0..40u32 {
        let d = retry_delay_ms(a);
        assert!(d > last);
        last = d;
    }
    assert_eq!(classify_status(200), StatusClass::Success);
    assert_eq!(classify_status(401), StatusClass::AuthenticationFailed);
    assert_eq!(classify_status(403), StatusClass::AuthenticationFailed);
    assert_eq!(classify_status(429), StatusClass::RateLimited);
    assert_eq!(classify_status(500), StatusClass::Failed);
}

#[test]
fn yaml_repairs() {
    assert_eq!(fix_key_zero_format("key:0 \"value\""), "key: \"value\"");
    assert_eq!(quote_unquoted_values("key: value"), "key: \"value\"");
    assert_eq!(fix_yaml_content("   a:0 \"b\"\n\tc: \"d\"").unwrap(), "  a: \"b\"\nc: \"d\"");
    assert!(matches!(validate_yaml_content(" \n\t"), Err(TranslationError::InvalidYaml(_))));
    assert!(validate_yaml_content(" k: \"v\"").is_ok());
    assert_eq!(normalize_text("a\r\nb").unwrap(), "a\r\nb");
    assert_eq!(strip_bom("\u{FEFF}l_english:"), "l_english:");
    assert_eq!(lang_header("english"), "l_english:");
    assert_eq!(normalize_indentation("\u{3000}x\r\n   y\n\n"), "  x\n  y\n");
}

#[test]
fn header_is_split_off() {
    let (h, body) = trim_lang_header("english", "l_english: \r\n k: \"v\"\n");
    assert_eq!(h, "l_english: ");
    assert_eq!(body, " k: \"v\"");
    let (h, body) = trim_lang_header("english", " k: \"v\"");
    assert_eq!(h, "");
    assert_eq!(body, " k: \"v\"");
}

#[test]
fn task_validation_and_dirs() {
    let task = TranslationTask {
        source_lang: "english".to_string(),
        target_langs: vec!["simp_chinese".to_string()],
        glossaries: vec![],
        localisation_dir: "mod/localisation".to_string(),
    };
    assert!(task.validate(true, true).is_ok());
    assert!(matches!(task.validate(false, true), Err(ConfigError::InvalidPath(_))));
    assert!(matches!(task.validate(true, false), Err(ConfigError::InvalidPath(_))));
    assert_eq!(task.source_dir(), "mod/localisation/english");
    assert_eq!(task.target_dir("simp_chinese"), "mod/localisation/simp_chinese/replace");
    let mut bad = task.clone();
    bad.source_lang = String::new();
    assert_eq!(bad.validate(true, true), Err(ConfigError::MissingField("source_lang".to_string())));
    let mut bad = task.clone();
    bad.target_langs.clear();
    assert_eq!(bad.validate(true, true), Err(ConfigError::MissingField("target_lang".to_string())));
    assert_eq!(TranslationBatcher::new(2).max_concurrent, 2);
}

#[test]
fn scheduled_batch_runs_every_chunk_despite_a_failure() {
    let t = Translator::new(glossary(), "{{glossary_csv}}".to_string());
    let chunks = split_yaml_content("f.yml", "one\ntwo\nthree", 1).unwrap();
    let mut scheduler = BatchScheduler::new(chunks.len(), 2);
    let mut calls = 0;
    let mut max_in_flight = 0;
    let mut pending: Vec<usize> = Vec::new();
    let mut outcomes: Vec<Option<Result<TranslationSlice, TranslationError>>> = vec![None, None, None];
    loop {
        match scheduler.next_action() {
            DispatchAction::Start(i) => {
                let _messages = t.chunk_messages(&chunks[i], "english", "simp_chinese");
                calls += 1;
                pending.push(i);
                max_in_flight = max_in_flight.max(pending.len());
            }
            DispatchAction::Wait => {
                let i = pending.remove(0);
                outcomes[i] = Some(if i == 1 {
                    Err(TranslationError::ApiError("chunk 2: backend unavailable".to_string()))
                } else {
                    t.finish_chunk(&chunks[i], &response(&["ok"])).map(|(s, _)| s)
                });
                scheduler.complete();
            }
            DispatchAction::Done => break,
        }
    }
    assert_eq!(calls, 3);
    assert_eq!(max_in_flight, 2);
    let outcomes: Vec<Result<TranslationSlice, TranslationError>> = outcomes.into_iter().map(|o| o.unwrap()).collect();
    match collect_batch(outcomes) {
        Err(TranslationError::AsyncError(msg)) => assert_eq!(msg, "API error: chunk 2: backend unavailable"),
        other => panic!("unexpected {:?}", other),
    }
}

#[test]
fn task_policy() {
    assert_eq!(after_file(&Ok(())), TaskStep::Continue);
    assert_eq!(after_file(&Err(TranslationError::Io("disk".to_string()))), TaskStep::Continue);
    assert_eq!(
        after_file(&Err(TranslationError::Translate(TranslateError::AuthenticationFailed))),
        TaskStep::Abort
    );
    assert_eq!(task_result(vec![]), Ok(()));
    assert_eq!(
        task_result(vec!["a failed".to_string(), "b failed".to_string()]),
        Err(TranslationError::AsyncError("a failed; b failed".to_string()))
    );
    assert_eq!(
        TranslationError::Translate(TranslateError::RateLimited).message(),
        "Translation error: Rate limited"
    );
    assert_eq!(
        ConfigError::MultipleErrors(vec!["x".to_string(), "y".to_string()]).message(),
        "Multiple errors: x; y"
    );
}
