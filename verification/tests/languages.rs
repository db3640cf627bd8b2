use tabby_inference::languages::{
    duplicate_extension, duplicate_language, get_language, get_language_by_ext,
    unknown_language, CommentStyle, ConfigList, Language, LanguageRegistry,
};

#[test]
fn block_preferred_over_line() {
    let php = get_language("php");
    assert!(matches!(
        php.comment_style(),
        CommentStyle::Block("/*", "*/")
    ));
}

#[test]
fn python_is_block() {
    let python = get_language("python");
    assert!(matches!(
        python.comment_style(),
        CommentStyle::Block("'''", "'''")
    ));
}

#[test]
fn html_is_block() {
    let html = get_language("html");
    assert!(matches!(
        html.comment_style(),
        CommentStyle::Block("<!--", "-->")
    ));
}

#[test]
fn css_is_block() {
    let css = get_language("css");
    assert!(matches!(
        css.comment_style(),
        CommentStyle::Block("/*", "*/")
    ));
}

#[test]
fn ocaml_is_block() {
    let ocaml = get_language("ocaml");
    assert!(matches!(
        ocaml.comment_style(),
        CommentStyle::Block("(*", "*)")
    ));
}

#[test]
fn txt_is_none() {
    let txt = get_language("txt");
    assert!(matches!(txt.comment_style(), CommentStyle::NoComment));
}

#[test]
fn sql_is_block() {
    let sql = get_language("sql");
    assert!(matches!(
        sql.comment_style(),
        CommentStyle::Block("/*", "*/")
    ));
}

#[test]
fn haskell_is_block() {
    let haskell = get_language("haskell");
    assert!(matches!(
        haskell.comment_style(),
        CommentStyle::Block("{-", "-}")
    ));
}

#[test]
fn dockerfile_is_line() {
    let dockerfile = get_language("dockerfile");
    assert!(matches!(
        dockerfile.comment_style(),
        CommentStyle::Line("#")
    ));
}

fn strs(items: &[&str]) -> Vec<String> {
    items.iter().map(|s| s.to_string()).collect()
}

fn lang(
    names: &[&str],
    exts: &[&str],
    keywords: Option<&[&str]>,
    line: Option<&str>,
    block: Option<(&str, &str)>,
) -> Language {
    Language::new(
        strs(names),
        strs(exts),
        keywords.map(strs),
        line.map(|s| s.to_string()),
        block.map(|b| b.0.to_string()),
        block.map(|b| b.1.to_string()),
        None,
    )
}

#[test]
fn unknown_name_gives_unknown_language() {
    let l = get_language("no-such-language");
    assert_eq!(l.language(), "unknown");
    assert!(matches!(l.comment_style(), CommentStyle::NoComment));
    assert_eq!(l.languages(), &strs(&["unknown"]));
    assert!(l.exts().is_empty());
}

#[test]
fn second_name_finds_the_same_language() {
    let ts = get_language("typescript");
    assert_eq!(ts.language(), "javascript");
    assert!(ts.exts().contains(&"ts".to_string()));
}

#[test]
fn lookup_by_extension() {
    let py = get_language_by_ext("py").unwrap();
    assert_eq!(py.language(), "python");
    let rs = get_language_by_ext("rs").unwrap();
    assert_eq!(rs.language(), "rust");
    assert!(get_language_by_ext("zzz").is_none());
    assert!(get_language_by_ext("").is_none());
}

#[test]
fn stop_words_of_a_language() {
    let python = get_language("python");
    let words = python.get_stop_words();
    assert_eq!(words.len(), 28 + 1 + 4);
    assert_eq!(words[0], "\n\n");
    assert_eq!(words[27], "<|assistant|>");
    assert_eq!(words[28], "\n#");
    assert_eq!(&words[29..], &strs(&["\ndef", "\nfrom", "\nclass", "\nimport"])[..]);
}

#[test]
fn stop_words_of_the_unknown_language() {
    let words = unknown_language().get_stop_words();
    assert_eq!(words.len(), 29);
    assert_eq!(words[28], "\n");
}

#[test]
fn stop_words_without_comment_or_keywords() {
    let l = lang(&["x"], &[], None, None, None);
    assert_eq!(l.get_stop_words().len(), 28);
}

#[test]
fn empty_block_marker_falls_back_to_line() {
    let l = lang(&["x"], &[], None, Some("//"), Some(("", "*/")));
    assert!(matches!(l.comment_style(), CommentStyle::Line("//")));
    let l = lang(&["x"], &[], None, Some(""), Some(("/*", "")));
    assert!(matches!(l.comment_style(), CommentStyle::NoComment));
    let l = lang(&["x"], &[], None, None, Some(("/*", "*/")));
    assert!(matches!(l.comment_style(), CommentStyle::Block("/*", "*/")));
}

#[test]
fn builtin_table_has_no_repeats() {
    let builtin = ConfigList::builtin();
    assert!(duplicate_language(&builtin).is_none());
    assert!(duplicate_extension(&builtin).is_none());
}

#[test]
fn repeated_names_and_extensions_are_found() {
    let config = ConfigList::new(vec![
        lang(&["a", "b"], &["x"], None, None, None),
        lang(&["c"], &["y", "z"], None, None, None),
        lang(&["d", "c", "a"], &["z", "x"], None, None, None),
    ]);
    assert_eq!(duplicate_language(&config), Some("c".to_string()));
    assert_eq!(duplicate_extension(&config), Some("z".to_string()));
    let config = ConfigList::new(vec![lang(&["a", "a"], &[], None, None, None)]);
    assert_eq!(duplicate_language(&config), Some("a".to_string()));
    assert_eq!(duplicate_extension(&config), None);
}

#[test]
fn registry_with_added_languages() {
    let mut config = ConfigList::builtin();
    let mut more = vec![lang(&["zig"], &["zig"], Some(&["fn"]), Some("//"), None)];
    config.append(&mut more);
    assert!(more.is_empty());
    assert!(duplicate_language(&config).is_none());
    assert!(duplicate_extension(&config).is_none());
    let registry = LanguageRegistry::new(config);
    let zig = registry.get_language("zig");
    assert!(matches!(zig.comment_style(), CommentStyle::Line("//")));
    assert_eq!(registry.get_language_by_ext("zig").unwrap().language(), "zig");
    assert_eq!(registry.get_language("python").language(), "python");
    assert_eq!(registry.get_language("nope").language(), "unknown");
    assert!(registry.get_language_by_ext("nope").is_none());
}

#[test]
fn default_config_is_empty() {
    let config = ConfigList::default();
    assert!(config.config().is_empty());
    let registry = LanguageRegistry::new(config);
    assert_eq!(registry.get_language("python").language(), "unknown");
}
