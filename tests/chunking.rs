use paradox_mod_translator::chunker::split_yaml_content;
use paradox_mod_translator::error::{PostprocessError, TranslationError};
use paradox_mod_translator::merger::{merge_slices, reconstruct_yaml_file, TranslationSlice};
use paradox_mod_translator::tokens::{
    estimate_chinese_tokens, estimate_english_tokens, estimate_mixed_tokens, is_cjk_character,
    max_chars_for_tokens,
};

const SAMPLE: &str = "l_english:\n pf_misc_title:0 \"Planetary Features\"\n pf_misc_desc:0 \"A world of §Yunusual§! features, worth £energy£ $AMOUNT$ per month.\"\n\n # section\n pf_misc_rock:0 \"Rock formations\"\n pf_misc_rock_desc:0 \"Tall spires of stone rise above the plains, casting long shadows over the settlements below.\"\n pf_misc_lake:0 \"Frozen lake\"\n pf_misc_lake_desc:0 \"An ice sheet covers the lake all year round.\"\n";

fn slices_of(text: &str, budget: usize) -> Vec<TranslationSlice> {
    split_yaml_content("l_english_pf_misc.yml", text, budget)
        .unwrap()
        .into_iter()
        .map(|c| TranslationSlice { content: c.content, start_line: c.start_line, end_line: c.end_line })
        .collect()
}

#[test]
fn it_works() {
    assert_eq!(2 + 2, 4);
}

#[test]
fn test_split_yaml_content() {
    let content = SAMPLE;
    let chunks = split_yaml_content("l_english_pf_misc.yml", content, 500).unwrap();
    let recombined: String = chunks
        .iter()
        .map(|c| c.content.as_str())
        .collect::<Vec<&str>>()
        .join("\n");
    let recombined_lines: Vec<&str> = recombined.lines().collect();
    let original_lines: Vec<&str> = content.lines().collect();
    assert_eq!(recombined_lines, original_lines);
}

#[test]
fn token_estimates_exact() {
    assert_eq!(estimate_english_tokens(""), 0);
    assert_eq!(estimate_english_tokens("abcd"), 1);
    assert_eq!(estimate_english_tokens("abcde"), 2);
    assert_eq!(estimate_chinese_tokens("能量"), 3);
    assert_eq!(estimate_chinese_tokens("能a"), 2);
    assert_eq!(estimate_mixed_tokens("能量ab"), 4);
    assert_eq!(estimate_mixed_tokens("energy"), 2);
    assert!(is_cjk_character('能'));
    assert!(!is_cjk_character('a'));
    assert!(is_cjk_character('\u{20000}'));
    assert_eq!(max_chars_for_tokens(100, true), 67);
    assert_eq!(max_chars_for_tokens(1, true), 1);
    assert_eq!(max_chars_for_tokens(10, false), 40);
}

#[test]
fn empty_content_gives_no_chunks() {
    let chunks = split_yaml_content("f.yml", "", 10).unwrap();
    assert!(chunks.is_empty());
}

#[test]
fn chunks_respect_budget_and_are_contiguous() {
    // each line "aaaa" costs 1 token
    let text = "aaaa\naaaa\naaaa\naaaa\naaaa";
    let chunks = split_yaml_content("f.yml", text, 2).unwrap();
    assert_eq!(chunks.len(), 3);
    assert_eq!((chunks[0].start_line, chunks[0].end_line), (1, 2));
    assert_eq!((chunks[1].start_line, chunks[1].end_line), (3, 4));
    assert_eq!((chunks[2].start_line, chunks[2].end_line), (5, 5));
    assert_eq!(chunks[0].content, "aaaa\naaaa");
    assert_eq!(chunks[0].target_filename, "f.yml");
    for w in chunks.windows(2) {
        assert_eq!(w[1].start_line, w[0].end_line + 1);
    }
}

#[test]
fn oversized_line_stands_alone() {
    let text = "ab\nabcdefghijklmnopqrstuvwxyz\ncd";
    let chunks = split_yaml_content("f.yml", text, 2).unwrap();
    assert_eq!(chunks.len(), 3);
    assert_eq!(chunks[1].content, "abcdefghijklmnopqrstuvwxyz");
    assert_eq!((chunks[1].start_line, chunks[1].end_line), (2, 2));
}

#[test]
fn merge_of_split_gives_text_back() {
    let joined = SAMPLE.lines().collect::<Vec<&str>>().join("\n");
    for budget in [1usize, 3, 10, 500] {
        let merged = merge_slices(slices_of(SAMPLE, budget)).unwrap();
        assert_eq!(merged, joined);
    }
    assert_eq!(merge_slices(slices_of("a\n\nb\n", 1)).unwrap(), "a\n\nb");
    assert_eq!(merge_slices(slices_of("a\r\nb\r\n", 1)).unwrap(), "a\nb");
}

#[test]
fn merge_rejects_empty_input() {
    let r = merge_slices(vec![]);
    assert_eq!(r, Err(TranslationError::Postprocess(PostprocessError::InconsistentSlices)));
}

#[test]
fn merge_rejects_gap() {
    let slices = vec![
        TranslationSlice { content: "a".to_string(), start_line: 1, end_line: 2 },
        TranslationSlice { content: "b".to_string(), start_line: 4, end_line: 4 },
    ];
    let r = merge_slices(slices);
    assert!(matches!(r, Err(TranslationError::Postprocess(PostprocessError::MergeFailed(_)))));
}

#[test]
fn merge_orders_by_start_line() {
    let slices = vec![
        TranslationSlice { content: "third".to_string(), start_line: 4, end_line: 4 },
        TranslationSlice { content: "first\nsecond".to_string(), start_line: 1, end_line: 2 },
        TranslationSlice { content: "x".to_string(), start_line: 3, end_line: 3 },
    ];
    assert_eq!(merge_slices(slices).unwrap(), "first\nsecond\nx\nthird");
}

#[test]
fn reconstruct_adds_header_when_missing() {
    let slices = vec![TranslationSlice { content: " key: \"值\"".to_string(), start_line: 1, end_line: 1 }];
    assert_eq!(
        reconstruct_yaml_file(slices, "l_simp_chinese:").unwrap(),
        "l_simp_chinese:\n key: \"值\""
    );
    let echoed = vec![TranslationSlice { content: "l_simp_chinese:\n key: \"值\"".to_string(), start_line: 1, end_line: 2 }];
    assert_eq!(reconstruct_yaml_file(echoed, "l_simp_chinese:").unwrap(), "l_simp_chinese:\n key: \"值\"");
    let no_header = vec![TranslationSlice { content: "k: \"v\"".to_string(), start_line: 1, end_line: 1 }];
    assert_eq!(reconstruct_yaml_file(no_header, "").unwrap(), "k: \"v\"");
    assert!(reconstruct_yaml_file(vec![], "l_english:").is_err());
}

#[test]
fn lines_split_as_str_lines() {
    let chunks = split_yaml_content("f.yml", "a\n", 10).unwrap();
    assert_eq!(chunks.len(), 1);
    assert_eq!((chunks[0].start_line, chunks[0].end_line), (1, 1));
    assert_eq!(chunks[0].content, "a");
    let chunks = split_yaml_content("f.yml", "a\r\nb", 10).unwrap();
    assert_eq!(chunks[0].content, "a\nb");
    assert_eq!(chunks[0].end_line, 2);
    let chunks = split_yaml_content("f.yml", "\n", 10).unwrap();
    assert_eq!(chunks.len(), 1);
    assert_eq!(chunks[0].content, "");
}
