use std::sync::Arc;
use tabby_inference::decoding::{
    check_stochastic_line_end, create_stop_trie, plan_for_style, reverse, StopCondition,
    StopConditionFactory, StopPlan,
};
use tabby_inference::languages::{get_language, unknown_language, CommentStyle, Language};

#[test]
fn test_trie_works() {
    let text = reverse("void write_u32(std::uint32_t val) const {\n        write_raw(&val, sizeof(val));\n    }\n\n    ~llama_file() {\n        if (fp) {\n            std::fclose(fp);\n        }\n    }\n};\n\nvoid");

    let trie = create_stop_trie(vec!["\n\n".to_owned(), "\n\n  ".to_owned()]);
    assert!(trie.common_prefix_search(&text).is_empty());

    let trie = create_stop_trie(vec![
        "\n\n".to_owned(),
        "\n\n  ".to_owned(),
        "\nvoid".to_owned(),
        "<|file_sep|>".to_owned(), // qwen 2.5 coder style
    ]);
    assert!(!trie.common_prefix_search(&text).is_empty());

    let qwen25coder = reverse("qwen25 style stop words;<|file_sep|>");
    assert!(!trie.common_prefix_search(qwen25coder).is_empty());
}

#[test]
fn test_stop_condition_max_length() {
    let factory = StopConditionFactory::default();
    let unknown = unknown_language();
    let mut cond = factory.create("", Some(&unknown));
    let (should_stop, _) = cond.should_stop("1");
    assert!(!should_stop);
    let (should_stop, _) = cond.should_stop("2");
    assert!(!should_stop);
    let (should_stop, _) = cond.should_stop("3");
    assert!(!should_stop);
    let (should_stop, _) = cond.should_stop("4");
    assert!(!should_stop)
}

#[test]
fn test_stop_condition_additional_stop_words() {
    let factory = StopConditionFactory::with_stop_words(vec!["<|endoftext|>".to_owned()]);
    let unknown = unknown_language();
    let mut cond = factory.create("", Some(&unknown));
    let (should_stop, _) = cond.should_stop("1");
    assert!(!should_stop);
    let (should_stop, _) = cond.should_stop("<|endoftext|>");
    assert!(should_stop);
}

#[test]
fn test_create_with_style_code_delegates_to_create() {
    let factory = StopConditionFactory::default();
    let lang = get_language("python");
    let mut cond = factory.create_with_style("", Some(&lang), "code");
    // Should behave like a normal stop condition (no extra trie)
    let (should_stop, _) = cond.should_stop("x = 1");
    assert!(!should_stop);
}

#[test]
fn test_create_with_style_hint_line_stops_on_newline() {
    let factory = StopConditionFactory::default();
    // Dockerfile is pure-line ("#"), so its comment_style stays Line.
    let lang = get_language("dockerfile");
    let mut cond = factory.create_with_style("", Some(&lang), "hint");
    let (should_stop, _) = cond.should_stop("base alpine image");
    assert!(!should_stop);
    let (should_stop, _) = cond.should_stop("\n");
    assert!(should_stop);
}

#[test]
fn test_create_with_style_pseudocode_line_stops_on_end_marker() {
    let factory = StopConditionFactory::default();
    let lang = get_language("dockerfile");
    let mut cond = factory.create_with_style("", Some(&lang), "pseudocode");
    let (should_stop, _) = cond.should_stop("INSTALL deps");
    assert!(!should_stop);
    // Stop word is "\n# END".
    let (should_stop, _) = cond.should_stop("\n# END");
    assert!(should_stop);
}

#[test]
fn test_create_with_style_hint_block_stops_on_close() {
    let factory = StopConditionFactory::default();
    // Python now resolves to Block ("'''", "'''").
    let lang = get_language("python");
    let mut cond = factory.create_with_style("", Some(&lang), "hint");
    let (should_stop, _) = cond.should_stop("computes fib recursively");
    assert!(!should_stop);
    let (should_stop, _) = cond.should_stop("'''");
    assert!(should_stop);
}

#[test]
fn test_create_with_style_pseudocode_block_stops_on_close() {
    let factory = StopConditionFactory::default();
    let lang = get_language("python");
    let mut cond = factory.create_with_style("", Some(&lang), "pseudocode");
    // Body of the pseudocode should not trigger a stop.
    let (should_stop, _) = cond.should_stop("IF n <= 1 RETURN n");
    assert!(!should_stop);
    // Nor should the bare "\nEND " segment — we trust the model to follow
    // the suffix injection through to the closing marker.
    let (should_stop, _) = cond.should_stop("\nEND ");
    assert!(!should_stop);
    // Closing block marker fires the stop.
    let (should_stop, _) = cond.should_stop("'''");
    assert!(should_stop);
}

#[test]
fn test_create_with_style_stochastic_line_stops_on_non_comment() {
    let factory = StopConditionFactory::default();
    let lang = get_language("dockerfile"); // marker "#"
    let mut cond = factory.create_with_style("", Some(&lang), "stochastic");
    let (should_stop, _) = cond.should_stop(" Step one");
    assert!(!should_stop);
    let (should_stop, _) = cond.should_stop("\n# 2: Step two");
    assert!(!should_stop);
    let (should_stop, n) = cond.should_stop("\nFROM alpine");
    assert!(should_stop);
    assert!(n >= "\nFROM alpine".len());
}

#[test]
fn test_create_with_style_stochastic_line_partial_marker_waits() {
    // Test the partial-prefix logic of check_stochastic_line_end directly
    // using new_with_stochastic_line, since no language in the config
    // produces CommentStyle::Line("--") (all "--" languages also have block comments).
    let mut cond = StopCondition::new_with_stochastic_line(None, "--".to_string(), "");
    // After "\n-" we have a partial-prefix match of "--"; do not stop.
    let (should_stop, _) = cond.should_stop("\n-");
    assert!(!should_stop);
    // Completing the marker keeps us going.
    let (should_stop, _) = cond.should_stop("- 2: next step");
    assert!(!should_stop);
    // Now a divergence after a newline.
    let (should_stop, _) = cond.should_stop("\nSELECT");
    assert!(should_stop);
}

#[test]
fn test_create_with_style_stochastic_block_stops_on_close() {
    let factory = StopConditionFactory::default();
    let lang = get_language("python"); // Block ("'''", "'''")
    let mut cond = factory.create_with_style("", Some(&lang), "stochastic");
    let (should_stop, _) = cond.should_stop(" Parse input\n2: Validate\n3: Compute");
    assert!(!should_stop);
    let (should_stop, _) = cond.should_stop("'''");
    assert!(should_stop);
}

#[test]
fn reverse_keeps_whole_characters() {
    assert_eq!(reverse(""), "");
    assert_eq!(reverse("abc"), "cba");
    assert_eq!(reverse("aé🍣"), "🍣éa");
}

#[test]
fn stochastic_line_end_values() {
    assert_eq!(check_stochastic_line_end("no newline", "#"), None);
    assert_eq!(check_stochastic_line_end("step\n", "#"), None);
    assert_eq!(check_stochastic_line_end("step\n#", "#"), None);
    assert_eq!(check_stochastic_line_end("step\n# more", "#"), None);
    assert_eq!(check_stochastic_line_end("step\nX", "#"), Some(2));
    assert_eq!(check_stochastic_line_end("a\nb\ncode", "//"), Some(7));
    assert_eq!(check_stochastic_line_end("a\n// b\ncode", "//"), Some(5));
    assert_eq!(check_stochastic_line_end("\nFOO\n# y", "#"), Some(8));
    assert_eq!(check_stochastic_line_end("a\n\nX", "#"), Some(2));
    assert_eq!(check_stochastic_line_end("a\n-\n--", "--"), None);
    assert_eq!(check_stochastic_line_end("a\n/", "//"), None);
    assert_eq!(check_stochastic_line_end("a\n/x", "//"), Some(3));
    assert_eq!(check_stochastic_line_end("a\né", "#"), Some(3));
}

#[test]
fn longest_stop_word_is_cut() {
    let trie = create_stop_trie(vec!["\n\n".to_owned(), "\n\n  ".to_owned()]);
    let mut cond = StopCondition::new(Some(Arc::new(trie)), "def f():");
    assert_eq!(cond.should_stop(""), (false, 0));
    assert_eq!(cond.should_stop("\n    pass"), (false, 0));
    assert_eq!(cond.should_stop("\n\n  "), (true, 4));
}

#[test]
fn stop_word_in_the_prompt_does_not_count_until_a_piece_comes() {
    let trie = create_stop_trie(vec!["END".to_owned()]);
    let mut cond = StopCondition::new(Some(Arc::new(trie)), "prompt END");
    assert_eq!(cond.should_stop(""), (false, 0));
    assert_eq!(cond.should_stop("x"), (false, 0));
    assert_eq!(cond.should_stop(" E"), (false, 0));
    assert_eq!(cond.should_stop("ND"), (true, 3));
}

#[test]
fn stop_word_after_a_longer_one_that_it_ends_is_not_kept() {
    // "\n" reversed begins "\n\n" reversed, which was pushed first: the trie keeps only "\n\n".
    let trie = create_stop_trie(vec!["\n\n".to_owned(), "\n".to_owned()]);
    assert!(trie.common_prefix_search("\nabc").is_empty());
    assert_eq!(trie.common_prefix_search("\n\nabc").len(), 1);
    // Pushed the other way round, both are kept.
    let trie = create_stop_trie(vec!["\n".to_owned(), "\n\n".to_owned()]);
    assert_eq!(trie.common_prefix_search("\n\nabc").len(), 2);
}

#[test]
fn multibyte_stop_word() {
    let trie = create_stop_trie(vec!["終わり".to_owned()]);
    let mut cond = StopCondition::new(Some(Arc::new(trie)), "");
    assert_eq!(cond.should_stop("これで終"), (false, 0));
    assert_eq!(cond.should_stop("わり"), (true, "終わり".len()));
}

#[test]
fn plans_of_the_styles() {
    let words = |p: StopPlan| match p {
        StopPlan::Words(w) => Some(w),
        StopPlan::StochasticLine(_) => None,
    };
    let line = CommentStyle::Line("#");
    let block = CommentStyle::Block("/*", "*/");
    let none = CommentStyle::NoComment;
    assert_eq!(words(plan_for_style("hint", &line)), Some(vec!["\n".to_string()]));
    assert_eq!(words(plan_for_style("hint", &block)), Some(vec!["*/".to_string()]));
    assert_eq!(words(plan_for_style("pseudocode", &line)), Some(vec!["\n# END".to_string()]));
    assert_eq!(words(plan_for_style("pseudocode", &block)), Some(vec!["*/".to_string()]));
    assert_eq!(words(plan_for_style("stochastic", &block)), Some(vec!["*/".to_string()]));
    assert!(matches!(plan_for_style("stochastic", &line), StopPlan::StochasticLine(m) if m == "#"));
    assert_eq!(words(plan_for_style("code", &line)), Some(vec![]));
    assert_eq!(words(plan_for_style("other", &block)), Some(vec![]));
    assert_eq!(words(plan_for_style("hint", &none)), Some(vec![]));
    assert_eq!(words(plan_for_style("stochastic", &none)), Some(vec![]));
}

#[test]
fn no_language_means_no_stop_words() {
    let factory = StopConditionFactory::default();
    let mut cond = factory.create_with_style("x", None, "hint");
    assert_eq!(cond.should_stop("\n\n"), (false, 0));
    let mut cond = factory.create("x", None);
    assert_eq!(cond.should_stop("\n\n"), (false, 0));
}

#[test]
fn language_stop_words_win_and_are_cached() {
    let factory = StopConditionFactory::default();
    let lang = get_language("python");
    for _ in 0..2 {
        let mut cond = factory.create_with_style("", Some(&lang), "hint");
        assert_eq!(cond.should_stop("x = 1"), (false, 0));
        assert_eq!(cond.should_stop("\ndef"), (true, 4));
    }
    let mut cond = factory.create("", Some(&lang));
    assert_eq!(cond.should_stop("a\n\n"), (true, 2));
}

#[test]
fn languages_sharing_a_name_keep_their_own_stop_words() {
    let factory = StopConditionFactory::default();
    let a = Language::new(
        vec!["x".to_owned()],
        vec![],
        Some(vec!["FOO".to_owned()]),
        None,
        None,
        None,
        None,
    );
    let b = Language::new(
        vec!["x".to_owned()],
        vec![],
        Some(vec!["BAR".to_owned()]),
        None,
        None,
        None,
        None,
    );
    let mut ca = factory.create("", Some(&a));
    assert_eq!(ca.should_stop("q\nFOO"), (true, 4));
    let mut cb = factory.create("", Some(&b));
    assert_eq!(cb.should_stop("q\nFOO"), (false, 0));
    assert_eq!(cb.should_stop("\nBAR"), (true, 4));
    let mut ca = factory.create("", Some(&a));
    assert_eq!(ca.should_stop("q\nBAR"), (false, 0));
}

#[test]
fn stop_word_inside_the_text_but_not_at_its_end_does_not_stop() {
    let factory = StopConditionFactory::with_stop_words(vec!["STOP".to_owned()]);
    let mut cond = factory.create("", Some(&unknown_language()));
    assert_eq!(cond.should_stop("aSTOPb"), (false, 0));
    assert_eq!(cond.should_stop("STO"), (false, 0));
    assert_eq!(cond.should_stop("P"), (true, 4));
}

#[test]
fn prompt_lines_do_not_end_a_step_list() {
    let mut cond = StopCondition::new_with_stochastic_line(None, "#".to_string(), "x = 1\ny");
    assert_eq!(cond.should_stop(" a"), (false, 0));
    assert_eq!(cond.should_stop("\n# 2: b"), (false, 0));
    assert_eq!(cond.should_stop("\nz\n# 3"), (true, 6));
    assert_eq!(cond.should_stop("more"), (true, 10));
}
