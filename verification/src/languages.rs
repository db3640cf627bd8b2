//! Languages: their comment markers, the stop words a completion in them ends at, and the
//! table that finds a language by name or by file extension.

use vstd::prelude::*;
use vstd::string::StringExecFns;
use vstd::utf8::encode_utf8;

verus! {

/// A language as the completion engine reads it.
#[derive(Debug, Clone)]
pub struct Language {
    languages: Vec<String>,
    exts: Vec<String>,
    top_level_keywords: Option<Vec<String>>,
    pub line_comment: Option<String>,
    pub block_comment_start: Option<String>,
    pub block_comment_end: Option<String>,
    pub chunk_size: Option<usize>,
}

/// The model of a [`Language`]: every string by its characters.
#[verifier::ext_equal]
pub struct LanguageView {
    pub languages: Seq<Seq<char>>,
    pub exts: Seq<Seq<char>>,
    pub top_level_keywords: Option<Seq<Seq<char>>>,
    pub line_comment: Option<Seq<char>>,
    pub block_comment_start: Option<Seq<char>>,
    pub block_comment_end: Option<Seq<char>>,
    pub chunk_size: Option<usize>,
}

/// The characters of each string of a list.
pub open spec fn string_views(v: Seq<String>) -> Seq<Seq<char>> {
    v.map_values(|s: String| s@)
}

/// The characters of each string slice of a list.
pub open spec fn str_views(v: Seq<&str>) -> Seq<Seq<char>> {
    v.map_values(|s: &str| s@)
}

/// The characters of an optional string.
pub open spec fn opt_string_view(o: Option<String>) -> Option<Seq<char>> {
    match o {
        Some(s) => Some(s@),
        None => None,
    }
}

impl View for Language {
    type V = LanguageView;

    closed spec fn view(&self) -> LanguageView {
        LanguageView {
            languages: string_views(self.languages@),
            exts: string_views(self.exts@),
            top_level_keywords: match self.top_level_keywords {
                Some(k) => Some(string_views(k@)),
                None => None,
            },
            line_comment: opt_string_view(self.line_comment),
            block_comment_start: opt_string_view(self.block_comment_start),
            block_comment_end: opt_string_view(self.block_comment_end),
            chunk_size: self.chunk_size,
        }
    }
}

/// How a language writes a comment.
#[derive(Debug, Clone)]
pub enum CommentStyle<'a> {
    /// Single-marker-per-line languages: "#", "//", "--", etc.
    Line(&'a str),
    /// Bracketed block-comment languages: ("<!--", "-->"), ("/*", "*/"), ...
    Block(&'a str, &'a str),
    /// Neither (txt, bare Dockerfile): caller should downgrade to "code" style.
    NoComment,
}

/// The model of a [`CommentStyle`].
pub enum CommentMarkers {
    Line(Seq<char>),
    Block(Seq<char>, Seq<char>),
    Absent,
}

impl<'a> View for CommentStyle<'a> {
    type V = CommentMarkers;

    open spec fn view(&self) -> CommentMarkers {
        match self {
            CommentStyle::Line(m) => CommentMarkers::Line(m@),
            CommentStyle::Block(s, e) => CommentMarkers::Block(s@, e@),
            CommentStyle::NoComment => CommentMarkers::Absent,
        }
    }
}

/// The stop words that every language has: blank lines at each indentation, and the
/// special tokens of the supported code models.
pub open spec fn default_stop_words() -> Seq<Seq<char>> {
    seq![
        "\n\n"@,
        "\n\n  "@,
        "\n\n    "@,
        "\n\n      "@,
        "\n\n        "@,
        "\n\n          "@,
        "\n\n            "@,
        "\n\n              "@,
        "\n\n\t"@,
        "\n\n\t\t"@,
        "\n\n\t\t\t"@,
        "\n\n\t\t\t\t"@,
        "\n\n\t\t\t\t\t"@,
        "\n\n\t\t\t\t\t\t"@,
        "\n\n\t\t\t\t\t\t\t"@,
        "<fim_prefix>"@,
        "<fim_suffix>"@,
        "<fim_middle>"@,
        "<file_sep>"@,
        " <EOT>"@,
        "<|fim_prefix|>"@,
        "<|fim_suffix|>"@,
        "<|fim_middle|>"@,
        "<|file_separator|>"@,
        "<|system|>"@,
        "<|user|>"@,
        "<|end|>"@,
        "<|assistant|>"@,
    ]
}

/// A word on a line of its own: a newline, then the word.
pub open spec fn on_new_line(w: Seq<char>) -> Seq<char> {
    seq!['\n'] + w
}

impl LanguageView {
    /// The preferred comment markers: the block markers when both are present and
    /// non-empty, else the line marker when present and non-empty, else none.
    pub open spec fn comment_markers(self) -> CommentMarkers {
        if self.block_comment_start is Some && self.block_comment_end is Some
            && self.block_comment_start->0.len() > 0 && self.block_comment_end->0.len() > 0 {
            CommentMarkers::Block(self.block_comment_start->0, self.block_comment_end->0)
        } else if self.line_comment is Some && self.line_comment->0.len() > 0 {
            CommentMarkers::Line(self.line_comment->0)
        } else {
            CommentMarkers::Absent
        }
    }

    /// The stop words of the language: the default ones, then the line comment marker on a
    /// new line, then each top-level keyword on a new line.
    pub open spec fn stop_words(self) -> Seq<Seq<char>> {
        default_stop_words() + (match self.line_comment {
            Some(lc) => seq![on_new_line(lc)],
            None => Seq::empty(),
        }) + (match self.top_level_keywords {
            Some(k) => k.map_values(|w: Seq<char>| on_new_line(w)),
            None => Seq::empty(),
        })
    }
}

/// The default stop words, as strings.
fn default_stop_word_list() -> (r: Vec<String>)
    ensures
        string_views(r@) == default_stop_words(),
{
    let words: Vec<&str> = vec![
        "\n\n",
        "\n\n  ",
        "\n\n    ",
        "\n\n      ",
        "\n\n        ",
        "\n\n          ",
        "\n\n            ",
        "\n\n              ",
        "\n\n\t",
        "\n\n\t\t",
        "\n\n\t\t\t",
        "\n\n\t\t\t\t",
        "\n\n\t\t\t\t\t",
        "\n\n\t\t\t\t\t\t",
        "\n\n\t\t\t\t\t\t\t",
        "<fim_prefix>",
        "<fim_suffix>",
        "<fim_middle>",
        "<file_sep>",
        " <EOT>",
        "<|fim_prefix|>",
        "<|fim_suffix|>",
        "<|fim_middle|>",
        "<|file_separator|>",
        "<|system|>",
        "<|user|>",
        "<|end|>",
        "<|assistant|>",
    ];
    let r = strings(words.as_slice());
    assert(str_views(words@) =~= default_stop_words());
    r
}

/// Owned copies of a list of string slices.
pub fn strings(items: &[&str]) -> (r: Vec<String>)
    ensures
        string_views(r@) == str_views(items@),
{
    let mut out: Vec<String> = Vec::new();
    let mut i: usize = 0;
    while i < items.len()
        invariant
            i <= items@.len(),
            string_views(out@) =~= str_views(items@.take(i as int)),
        decreases items@.len() - i,
    {
        out.push(String::from_str(items[i]));
        assert(str_views(items@.take(i + 1)) =~= str_views(items@.take(i as int)).push(
            items@[i as int]@,
        ));
        i = i + 1;
    }
    assert(items@.take(items@.len() as int) =~= items@);
    out
}

/// `word` on a new line.
fn new_line_word(word: &str) -> (r: String)
    ensures
        r@ == on_new_line(word@),
{
    let mut s = String::from_str("\n");
    proof {
        reveal_strlit("\n");
    }
    s.append(word);
    s
}

impl Language {
    /// Resolve the preferred comment style. Prefer block-comment when both are
    /// defined (PHP has both `//` and `/* */` — use `/* */`) so the wrapper
    /// always reads as a self-contained comment region.
    pub fn comment_style(&self) -> (r: CommentStyle<'_>)
        ensures
            r@ == self@.comment_markers(),
    {
        if let (Some(s), Some(e)) = (&self.block_comment_start, &self.block_comment_end) {
            if !s.as_str().is_empty() && !e.as_str().is_empty() {
                return CommentStyle::Block(s.as_str(), e.as_str());
            }
        }
        if let Some(lc) = &self.line_comment {
            if !lc.as_str().is_empty() {
                return CommentStyle::Line(lc.as_str());
            }
        }
        CommentStyle::NoComment
    }

    /// The stop words of a completion in this language.
    pub fn get_stop_words(&self) -> (r: Vec<String>)
        ensures
            string_views(r@) == self@.stop_words(),
    {
        let mut out = default_stop_word_list();
        let ghost lines: Seq<Seq<char>> = match self@.line_comment {
            Some(lc) => seq![on_new_line(lc)],
            None => Seq::empty(),
        };
        if let Some(line_comment) = &self.line_comment {
            out.push(new_line_word(line_comment.as_str()));
        }
        assert(string_views(out@) =~= default_stop_words() + lines);
        if let Some(top_level_keywords) = &self.top_level_keywords {
            let ghost base = string_views(out@);
            let ghost kw = string_views(top_level_keywords@);
            let mut i: usize = 0;
            while i < top_level_keywords.len()
                invariant
                    i <= top_level_keywords@.len(),
                    kw == string_views(top_level_keywords@),
                    string_views(out@) =~= base + kw.take(i as int).map_values(
                        |w: Seq<char>| on_new_line(w),
                    ),
                decreases top_level_keywords@.len() - i,
            {
                let ghost prev = out@;
                out.push(new_line_word(top_level_keywords[i].as_str()));
                assert(string_views(out@) =~= string_views(prev).push(on_new_line(kw[i as int])));
                assert(kw.take(i + 1).map_values(|w: Seq<char>| on_new_line(w)) =~= kw.take(
                    i as int,
                ).map_values(|w: Seq<char>| on_new_line(w)).push(on_new_line(kw[i as int])));
                i = i + 1;
            }
            assert(kw.take(top_level_keywords@.len() as int) =~= kw);
        }
        out
    }

    /// The main name of the language: the first of its names.
    pub fn language(&self) -> (r: &str)
        requires
            self@.languages.len() > 0,
        ensures
            r@ == self@.languages[0],
    {
        self.languages[0].as_str()
    }
}

/// The model of a table entry written with string slices.
pub open spec fn entry_view(
    names: Seq<&str>,
    exts: Seq<&str>,
    keywords: Option<Seq<&str>>,
    line: Option<&str>,
    block: Option<(&str, &str)>,
) -> LanguageView {
    LanguageView {
        languages: str_views(names),
        exts: str_views(exts),
        top_level_keywords: match keywords {
            Some(k) => Some(str_views(k)),
            None => None,
        },
        line_comment: match line {
            Some(l) => Some(l@),
            None => None,
        },
        block_comment_start: match block {
            Some(b) => Some(b.0@),
            None => None,
        },
        block_comment_end: match block {
            Some(b) => Some(b.1@),
            None => None,
        },
        chunk_size: None,
    }
}

/// The languages the library knows without any configuration.
pub open spec fn builtin_table() -> Seq<LanguageView> {
    seq![
        entry_view(
            seq!["python"],
            seq!["py"],
            Some(seq!["def", "from", "class", "import"]),
            Some("#"),
            Some(("'''", "'''")),
        ),
        entry_view(
            seq!["rust"],
            seq!["rs"],
            Some(seq!["fn", "trait", "impl", "enum", "pub", "extern", "static", "trait", "unsafe", "use"]),
            Some("//"),
            Some(("/*", "*/")),
        ),
        entry_view(
            seq!["java"],
            seq!["java"],
            Some(seq!["abstract", "synchronized", "boolean", "interface", "class", "extends", "final", "implements", "native", "private", "protected", "public", "static", "strictfp", "throws", "transient", "void", "volatile", "import", "package"]),
            Some("//"),
            Some(("/*", "*/")),
        ),
        entry_view(
            seq!["kotlin"],
            seq!["kt", "kts"],
            Some(seq!["abstract", "actual", "annotation", "class", "companion", "const", "data", "enum", "expect", "external", "final", "fun", "import", "inline", "interface", "internal", "object", "open", "override", "package", "private", "protected", "public", "sealed", "suspend", "typealias", "val", "var"]),
            Some("//"),
            Some(("/*", "*/")),
        ),
        entry_view(
            seq!["javascript", "typescript", "javascriptreact", "typescriptreact"],
            seq!["js", "jsx", "ts", "tsx", "mjs", "cjs"],
            Some(seq!["abstract", "async", "class", "const", "declare", "enum", "export", "function", "import", "interface", "let", "module", "namespace", "private", "protected", "public", "readonly", "static", "type", "var"]),
            Some("//"),
            Some(("/*", "*/")),
        ),
        entry_view(
            seq!["go"],
            seq!["go"],
            Some(seq!["func", "interface", "struct", "package", "type", "import", "var", "const"]),
            Some("//"),
            Some(("/*", "*/")),
        ),
        entry_view(
            seq!["ruby"],
            seq!["rb"],
            Some(seq!["begin", "class", "def", "end", "module", "require"]),
            Some("#"),
            Some(("=begin", "=end")),
        ),
        entry_view(
            seq!["c", "cpp"],
            seq!["c", "h", "cpp", "hpp", "cc", "cxx", "hh"],
            Some(seq!["auto", "class", "const", "enum", "extern", "inline", "namespace", "static", "struct", "template", "typedef", "union", "using", "void"]),
            Some("//"),
            Some(("/*", "*/")),
        ),
        entry_view(
            seq!["csharp"],
            seq!["cs"],
            Some(seq!["abstract", "class", "enum", "interface", "internal", "namespace", "private", "protected", "public", "sealed", "static", "struct", "using"]),
            Some("//"),
            Some(("/*", "*/")),
        ),
        entry_view(
            seq!["solidity"],
            seq!["sol"],
            Some(seq!["contract", "interface", "library", "function", "pragma", "import", "struct", "enum", "event", "modifier"]),
            Some("//"),
            Some(("/*", "*/")),
        ),
        entry_view(
            seq!["lua"],
            seq!["lua"],
            Some(seq!["function", "local", "end"]),
            Some("--"),
            Some(("--[[", "]]")),
        ),
        entry_view(
            seq!["dart"],
            seq!["dart"],
            Some(seq!["abstract", "class", "enum", "extension", "import", "library", "mixin", "part", "typedef", "void"]),
            Some("//"),
            Some(("/*", "*/")),
        ),
        entry_view(
            seq!["php"],
            seq!["php", "phtml"],
            Some(seq!["abstract", "class", "const", "enum", "final", "function", "interface", "namespace", "private", "protected", "public", "static", "trait", "use"]),
            Some("//"),
            Some(("/*", "*/")),
        ),
        entry_view(
            seq!["elixir"],
            seq!["ex", "exs"],
            Some(seq!["def", "defp", "defmodule", "defmacro", "defstruct", "defprotocol", "defimpl"]),
            Some("#"),
            None,
        ),
        entry_view(
            seq!["gdscript"],
            seq!["gd"],
            Some(seq!["class", "class_name", "extends", "func", "signal", "var", "const", "enum", "static"]),
            Some("#"),
            None,
        ),
        entry_view(
            seq!["scala"],
            seq!["scala", "sc"],
            Some(seq!["abstract", "case", "class", "def", "enum", "final", "import", "object", "package", "private", "protected", "sealed", "trait", "type", "val", "var"]),
            Some("//"),
            Some(("/*", "*/")),
        ),
        entry_view(
            seq!["swift"],
            seq!["swift"],
            Some(seq!["class", "enum", "extension", "func", "import", "let", "protocol", "struct", "var"]),
            Some("//"),
            Some(("/*", "*/")),
        ),
        entry_view(
            seq!["sql"],
            seq!["sql"],
            None,
            Some("--"),
            Some(("/*", "*/")),
        ),
        entry_view(
            seq!["haskell"],
            seq!["hs"],
            Some(seq!["data", "class", "import", "instance", "module", "newtype", "type"]),
            Some("--"),
            Some(("{-", "-}")),
        ),
        entry_view(
            seq!["ocaml"],
            seq!["ml", "mli"],
            Some(seq!["let", "type", "module", "open", "exception", "class"]),
            None,
            Some(("(*", "*)")),
        ),
        entry_view(
            seq!["html"],
            seq!["html", "htm"],
            None,
            None,
            Some(("<!--", "-->")),
        ),
        entry_view(
            seq!["css", "scss", "less"],
            seq!["css", "scss", "less"],
            None,
            None,
            Some(("/*", "*/")),
        ),
        entry_view(
            seq!["dockerfile"],
            seq!["dockerfile"],
            Some(seq!["FROM", "RUN", "CMD", "LABEL", "EXPOSE", "ENV", "ADD", "COPY", "ENTRYPOINT", "VOLUME", "USER", "WORKDIR", "ARG"]),
            Some("#"),
            None,
        ),
        entry_view(
            seq!["hcl", "terraform"],
            seq!["tf", "hcl"],
            Some(seq!["resource", "data", "variable", "output", "module", "provider", "locals", "terraform"]),
            Some("#"),
            Some(("/*", "*/")),
        ),
        entry_view(
            seq!["shellscript", "bash", "sh"],
            seq!["sh", "bash"],
            Some(seq!["function"]),
            Some("#"),
            None,
        ),
        entry_view(
            seq!["yaml"],
            seq!["yaml", "yml"],
            None,
            Some("#"),
            None,
        ),
        entry_view(
            seq!["toml"],
            seq!["toml"],
            None,
            Some("#"),
            None,
        ),
        entry_view(
            seq!["r"],
            seq!["r"],
            Some(seq!["function", "library", "require"]),
            Some("#"),
            None,
        ),
        entry_view(
            seq!["julia"],
            seq!["jl"],
            Some(seq!["function", "module", "struct", "macro", "using", "import", "const", "abstract"]),
            Some("#"),
            Some(("#=", "=#")),
        ),
        entry_view(
            seq!["markdown"],
            seq!["md"],
            None,
            None,
            Some(("<!--", "-->")),
        ),
    ]
}

/// The language of a name that no table holds: no comment markers, no keywords, and an
/// empty line comment marker.
pub open spec fn unknown_language_view() -> LanguageView {
    LanguageView {
        languages: seq!["unknown"@],
        exts: Seq::empty(),
        top_level_keywords: Some(Seq::empty()),
        line_comment: Some(Seq::empty()),
        block_comment_start: None,
        block_comment_end: None,
        chunk_size: None,
    }
}

/// A table entry from string slices.
fn entry(
    names: &[&str],
    exts: &[&str],
    keywords: &[&str],
    line: Option<&str>,
    block: Option<(&str, &str)>,
) -> (r: Language)
    ensures
        r@ == entry_view(names@, exts@, Some(keywords@), line, block),
{
    let mut r = entry_without_keywords(names, exts, line, block);
    r.top_level_keywords = Some(strings(keywords));
    assert(r@ =~~= entry_view(names@, exts@, Some(keywords@), line, block));
    r
}

/// A table entry without top-level keywords, from string slices.
fn entry_without_keywords(
    names: &[&str],
    exts: &[&str],
    line: Option<&str>,
    block: Option<(&str, &str)>,
) -> (r: Language)
    ensures
        r@ == entry_view(names@, exts@, None, line, block),
{
    let r = Language {
        languages: strings(names),
        exts: strings(exts),
        top_level_keywords: None,
        line_comment: match line {
            Some(l) => Some(String::from_str(l)),
            None => None,
        },
        block_comment_start: match block {
            Some(b) => Some(String::from_str(b.0)),
            None => None,
        },
        block_comment_end: match block {
            Some(b) => Some(String::from_str(b.1)),
            None => None,
        },
        chunk_size: None,
    };
    assert(r@ =~~= entry_view(names@, exts@, None, line, block));
    r
}

/// The language of a name that no table holds.
pub fn unknown_language() -> (r: Language)
    ensures
        r@ == unknown_language_view(),
{
    let r = Language {
        languages: strings(&["unknown"]),
        exts: Vec::new(),
        top_level_keywords: Some(Vec::new()),
        line_comment: Some(String::from_str("")),
        block_comment_start: None,
        block_comment_end: None,
        chunk_size: None,
    };
    proof {
        reveal_strlit("");
    }
    assert(r@.exts =~= Seq::<Seq<char>>::empty());
    assert(r@.top_level_keywords->0 =~= Seq::<Seq<char>>::empty());
    assert(r@.languages =~= seq!["unknown"@]);
    assert(r@.line_comment->0 =~= Seq::<char>::empty());
    r
}

/// The models of a list of languages.
pub open spec fn language_views(v: Seq<Language>) -> Seq<LanguageView> {
    v.map_values(|l: Language| l@)
}

/// A list of languages, in the order in which lookups try them.
#[derive(Debug, Clone)]
pub struct ConfigList {
    config: Vec<Language>,
}

impl View for ConfigList {
    type V = Seq<LanguageView>;

    closed spec fn view(&self) -> Seq<LanguageView> {
        language_views(self.config@)
    }
}

impl ConfigList {
    /// The languages the library knows without any configuration.
    pub fn builtin() -> (r: ConfigList)
        ensures
            r@ == builtin_table(),
    {
        let config: Vec<Language> = vec![
        entry(
            &["python"],
            &["py"],
            &["def", "from", "class", "import"],
            Some("#"),
            Some(("'''", "'''")),
        ),
        entry(
            &["rust"],
            &["rs"],
            &["fn", "trait", "impl", "enum", "pub", "extern", "static", "trait", "unsafe", "use"],
            Some("//"),
            Some(("/*", "*/")),
        ),
        entry(
            &["java"],
            &["java"],
            &["abstract", "synchronized", "boolean", "interface", "class", "extends", "final", "implements", "native", "private", "protected", "public", "static", "strictfp", "throws", "transient", "void", "volatile", "import", "package"],
            Some("//"),
            Some(("/*", "*/")),
        ),
        entry(
            &["kotlin"],
            &["kt", "kts"],
            &["abstract", "actual", "annotation", "class", "companion", "const", "data", "enum", "expect", "external", "final", "fun", "import", "inline", "interface", "internal", "object", "open", "override", "package", "private", "protected", "public", "sealed", "suspend", "typealias", "val", "var"],
            Some("//"),
            Some(("/*", "*/")),
        ),
        entry(
            &["javascript", "typescript", "javascriptreact", "typescriptreact"],
            &["js", "jsx", "ts", "tsx", "mjs", "cjs"],
            &["abstract", "async", "class", "const", "declare", "enum", "export", "function", "import", "interface", "let", "module", "namespace", "private", "protected", "public", "readonly", "static", "type", "var"],
            Some("//"),
            Some(("/*", "*/")),
        ),
        entry(
            &["go"],
            &["go"],
            &["func", "interface", "struct", "package", "type", "import", "var", "const"],
            Some("//"),
            Some(("/*", "*/")),
        ),
        entry(
            &["ruby"],
            &["rb"],
            &["begin", "class", "def", "end", "module", "require"],
            Some("#"),
            Some(("=begin", "=end")),
        ),
        entry(
            &["c", "cpp"],
            &["c", "h", "cpp", "hpp", "cc", "cxx", "hh"],
            &["auto", "class", "const", "enum", "extern", "inline", "namespace", "static", "struct", "template", "typedef", "union", "using", "void"],
            Some("//"),
            Some(("/*", "*/")),
        ),
        entry(
            &["csharp"],
            &["cs"],
            &["abstract", "class", "enum", "interface", "internal", "namespace", "private", "protected", "public", "sealed", "static", "struct", "using"],
            Some("//"),
            Some(("/*", "*/")),
        ),
        entry(
            &["solidity"],
            &["sol"],
            &["contract", "interface", "library", "function", "pragma", "import", "struct", "enum", "event", "modifier"],
            Some("//"),
            Some(("/*", "*/")),
        ),
        entry(
            &["lua"],
            &["lua"],
            &["function", "local", "end"],
            Some("--"),
            Some(("--[[", "]]")),
        ),
        entry(
            &["dart"],
            &["dart"],
            &["abstract", "class", "enum", "extension", "import", "library", "mixin", "part", "typedef", "void"],
            Some("//"),
            Some(("/*", "*/")),
        ),
        entry(
            &["php"],
            &["php", "phtml"],
            &["abstract", "class", "const", "enum", "final", "function", "interface", "namespace", "private", "protected", "public", "static", "trait", "use"],
            Some("//"),
            Some(("/*", "*/")),
        ),
        entry(
            &["elixir"],
            &["ex", "exs"],
            &["def", "defp", "defmodule", "defmacro", "defstruct", "defprotocol", "defimpl"],
            Some("#"),
            None,
        ),
        entry(
            &["gdscript"],
            &["gd"],
            &["class", "class_name", "extends", "func", "signal", "var", "const", "enum", "static"],
            Some("#"),
            None,
        ),
        entry(
            &["scala"],
            &["scala", "sc"],
            &["abstract", "case", "class", "def", "enum", "final", "import", "object", "package", "private", "protected", "sealed", "trait", "type", "val", "var"],
            Some("//"),
            Some(("/*", "*/")),
        ),
        entry(
            &["swift"],
            &["swift"],
            &["class", "enum", "extension", "func", "import", "let", "protocol", "struct", "var"],
            Some("//"),
            Some(("/*", "*/")),
        ),
        entry_without_keywords(
            &["sql"],
            &["sql"],
            Some("--"),
            Some(("/*", "*/")),
        ),
        entry(
            &["haskell"],
            &["hs"],
            &["data", "class", "import", "instance", "module", "newtype", "type"],
            Some("--"),
            Some(("{-", "-}")),
        ),
        entry(
            &["ocaml"],
            &["ml", "mli"],
            &["let", "type", "module", "open", "exception", "class"],
            None,
            Some(("(*", "*)")),
        ),
        entry_without_keywords(
            &["html"],
            &["html", "htm"],
            None,
            Some(("<!--", "-->")),
        ),
        entry_without_keywords(
            &["css", "scss", "less"],
            &["css", "scss", "less"],
            None,
            Some(("/*", "*/")),
        ),
        entry(
            &["dockerfile"],
            &["dockerfile"],
            &["FROM", "RUN", "CMD", "LABEL", "EXPOSE", "ENV", "ADD", "COPY", "ENTRYPOINT", "VOLUME", "USER", "WORKDIR", "ARG"],
            Some("#"),
            None,
        ),
        entry(
            &["hcl", "terraform"],
            &["tf", "hcl"],
            &["resource", "data", "variable", "output", "module", "provider", "locals", "terraform"],
            Some("#"),
            Some(("/*", "*/")),
        ),
        entry(
            &["shellscript", "bash", "sh"],
            &["sh", "bash"],
            &["function"],
            Some("#"),
            None,
        ),
        entry_without_keywords(
            &["yaml"],
            &["yaml", "yml"],
            Some("#"),
            None,
        ),
        entry_without_keywords(
            &["toml"],
            &["toml"],
            Some("#"),
            None,
        ),
        entry(
            &["r"],
            &["r"],
            &["function", "library", "require"],
            Some("#"),
            None,
        ),
        entry(
            &["julia"],
            &["jl"],
            &["function", "module", "struct", "macro", "using", "import", "const", "abstract"],
            Some("#"),
            Some(("#=", "=#")),
        ),
        entry_without_keywords(
            &["markdown"],
            &["md"],
            None,
            Some(("<!--", "-->")),
        ),
        ];
        let r = ConfigList { config };
        assert(r@.len() == builtin_table().len());
        assert(r@.len() == builtin_table().len());
        assert(r@[0] =~~= builtin_table()[0]);
        assert(r@[1] =~~= builtin_table()[1]);
        assert(r@[2] =~~= builtin_table()[2]);
        assert(r@[3] =~~= builtin_table()[3]);
        assert(r@[4] =~~= builtin_table()[4]);
        assert(r@[5] =~~= builtin_table()[5]);
        assert(r@[6] =~~= builtin_table()[6]);
        assert(r@[7] =~~= builtin_table()[7]);
        assert(r@[8] =~~= builtin_table()[8]);
        assert(r@[9] =~~= builtin_table()[9]);
        assert(r@[10] =~~= builtin_table()[10]);
        assert(r@[11] =~~= builtin_table()[11]);
        assert(r@[12] =~~= builtin_table()[12]);
        assert(r@[13] =~~= builtin_table()[13]);
        assert(r@[14] =~~= builtin_table()[14]);
        assert(r@[15] =~~= builtin_table()[15]);
        assert(r@[16] =~~= builtin_table()[16]);
        assert(r@[17] =~~= builtin_table()[17]);
        assert(r@[18] =~~= builtin_table()[18]);
        assert(r@[19] =~~= builtin_table()[19]);
        assert(r@[20] =~~= builtin_table()[20]);
        assert(r@[21] =~~= builtin_table()[21]);
        assert(r@[22] =~~= builtin_table()[22]);
        assert(r@[23] =~~= builtin_table()[23]);
        assert(r@[24] =~~= builtin_table()[24]);
        assert(r@[25] =~~= builtin_table()[25]);
        assert(r@[26] =~~= builtin_table()[26]);
        assert(r@[27] =~~= builtin_table()[27]);
        assert(r@[28] =~~= builtin_table()[28]);
        assert(r@[29] =~~= builtin_table()[29]);
        assert(r@ =~= builtin_table());
        r
    }
}

/// Whether two texts hold the same characters.
pub fn same_text(a: &str, b: &str) -> (r: bool)
    ensures
        r == (a@ == b@),
{
    let x = a.as_bytes();
    let y = b.as_bytes();
    proof {
        vstd::utf8::encode_utf8_decode_utf8(a@);
        vstd::utf8::encode_utf8_decode_utf8(b@);
    }
    if x.len() != y.len() {
        return false;
    }
    let mut i: usize = 0;
    while i < x.len()
        invariant
            i <= x@.len(),
            x@.len() == y@.len(),
            x@ == encode_utf8(a@),
            y@ == encode_utf8(b@),
            forall|j: int| 0 <= j < i ==> x@[j] == y@[j],
        decreases x@.len() - i,
    {
        if x[i] != y[i] {
            return false;
        }
        i = i + 1;
    }
    assert(x@ =~= y@);
    true
}

/// `cfg[i]` is the first language of `cfg` with the name `name`.
pub open spec fn is_first_named(cfg: Seq<LanguageView>, name: Seq<char>, i: int) -> bool {
    &&& 0 <= i < cfg.len()
    &&& cfg[i].languages.contains(name)
    &&& forall|j: int| 0 <= j < i ==> !(#[trigger] cfg[j]).languages.contains(name)
}

/// `cfg[i]` is the first language of `cfg` with the file extension `ext`.
pub open spec fn is_first_with_ext(cfg: Seq<LanguageView>, ext: Seq<char>, i: int) -> bool {
    &&& 0 <= i < cfg.len()
    &&& cfg[i].exts.contains(ext)
    &&& forall|j: int| 0 <= j < i ==> !(#[trigger] cfg[j]).exts.contains(ext)
}

/// Some language of `cfg` has the name `name`.
pub open spec fn has_name(cfg: Seq<LanguageView>, name: Seq<char>) -> bool {
    exists|i: int| 0 <= i < cfg.len() && (#[trigger] cfg[i]).languages.contains(name)
}

/// Some language of `cfg` has the file extension `ext`.
pub open spec fn has_ext(cfg: Seq<LanguageView>, ext: Seq<char>) -> bool {
    exists|i: int| 0 <= i < cfg.len() && (#[trigger] cfg[i]).exts.contains(ext)
}

/// The language that a lookup of `name` in `cfg` answers: the first one with that name,
/// or the unknown language when none has it.
pub open spec fn resolve_language(cfg: Seq<LanguageView>, name: Seq<char>) -> LanguageView {
    if has_name(cfg, name) {
        cfg[choose|i: int| is_first_named(cfg, name, i)]
    } else {
        unknown_language_view()
    }
}

/// The language that a lookup of the file extension `ext` in `cfg` answers: the language
/// named by the main name of the first language with that extension; none when no
/// language has it.
pub open spec fn resolve_extension(cfg: Seq<LanguageView>, ext: Seq<char>) -> Option<
    LanguageView,
> {
    if has_ext(cfg, ext) {
        Some(
            resolve_language(cfg, cfg[choose|i: int| is_first_with_ext(cfg, ext, i)].languages[0]),
        )
    } else {
        None
    }
}

/// Whether `list` holds the text `x`.
fn list_contains(list: &Vec<String>, x: &str) -> (r: bool)
    ensures
        r == string_views(list@).contains(x@),
{
    let mut i: usize = 0;
    while i < list.len()
        invariant
            i <= list@.len(),
            forall|j: int| 0 <= j < i ==> list@[j]@ != x@,
        decreases list@.len() - i,
    {
        if same_text(list[i].as_str(), x) {
            assert(string_views(list@)[i as int] == x@);
            return true;
        }
        i = i + 1;
    }
    assert(!string_views(list@).contains(x@)) by {
        if string_views(list@).contains(x@) {
            let k = choose|k: int| 0 <= k < list@.len() && string_views(list@)[k] == x@;
            assert(list@[k]@ == x@);
        }
    }
    false
}

/// The position of the first language of `config` with the name `name`.
fn find_named(config: &Vec<Language>, name: &str) -> (r: Option<usize>)
    ensures
        match r {
            Some(i) => is_first_named(language_views(config@), name@, i as int),
            None => !has_name(language_views(config@), name@),
        },
{
    let ghost cfg = language_views(config@);
    let mut i: usize = 0;
    while i < config.len()
        invariant
            i <= config@.len(),
            cfg == language_views(config@),
            forall|j: int| 0 <= j < i ==> !(#[trigger] cfg[j]).languages.contains(name@),
        decreases config@.len() - i,
    {
        if list_contains(&config[i].languages, name) {
            assert(cfg[i as int].languages == string_views(config@[i as int].languages@));
            return Some(i);
        }
        assert(cfg[i as int].languages == string_views(config@[i as int].languages@));
        i = i + 1;
    }
    None
}

/// The position of the first language of `config` with the file extension `ext`.
fn find_with_ext(config: &Vec<Language>, ext: &str) -> (r: Option<usize>)
    ensures
        match r {
            Some(i) => is_first_with_ext(language_views(config@), ext@, i as int),
            None => !has_ext(language_views(config@), ext@),
        },
{
    let ghost cfg = language_views(config@);
    let mut i: usize = 0;
    while i < config.len()
        invariant
            i <= config@.len(),
            cfg == language_views(config@),
            forall|j: int| 0 <= j < i ==> !(#[trigger] cfg[j]).exts.contains(ext@),
        decreases config@.len() - i,
    {
        if list_contains(&config[i].exts, ext) {
            assert(cfg[i as int].exts == string_views(config@[i as int].exts@));
            return Some(i);
        }
        assert(cfg[i as int].exts == string_views(config@[i as int].exts@));
        i = i + 1;
    }
    None
}

/// Looks a language up by name among the languages the library knows without any
/// configuration; a name that none of them has gives the unknown language.
pub fn get_language(language: &str) -> (r: Language)
    ensures
        r@ == resolve_language(builtin_table(), language@),
{
    let mut table = ConfigList::builtin().config;
    match find_named(&table, language) {
        Some(i) => table.remove(i),
        None => unknown_language(),
    }
}

/// Looks a language up by file extension among the languages the library knows without
/// any configuration.
pub fn get_language_by_ext(ext: &str) -> (r: Option<Language>)
    ensures
        match r {
            Some(l) => resolve_extension(builtin_table(), ext@) == Some(l@),
            None => resolve_extension(builtin_table(), ext@) is None,
        },
{
    let mut table = ConfigList::builtin().config;
    let ghost cfg = language_views(table@);
    match find_with_ext(&table, ext) {
        Some(i) => {
            assert(cfg[i as int].languages.len() > 0);
            let name = String::from_str(table[i].language());
            match find_named(&table, name.as_str()) {
                Some(j) => Some(table.remove(j)),
                None => Some(unknown_language()),
            }
        },
        None => None,
    }
}

/// The names of the languages of `cfg`, in order.
pub open spec fn all_names(cfg: Seq<LanguageView>) -> Seq<Seq<char>>
    decreases cfg.len(),
{
    if cfg.len() == 0 {
        Seq::empty()
    } else {
        all_names(cfg.drop_last()) + cfg.last().languages
    }
}

/// The file extensions of the languages of `cfg`, in order.
pub open spec fn all_exts(cfg: Seq<LanguageView>) -> Seq<Seq<char>>
    decreases cfg.len(),
{
    if cfg.len() == 0 {
        Seq::empty()
    } else {
        all_exts(cfg.drop_last()) + cfg.last().exts
    }
}

/// The first text of `s` that repeats an earlier one, scanning from the front.
pub open spec fn first_repeat(s: Seq<Seq<char>>) -> Option<Seq<char>>
    decreases s.len(),
{
    if s.len() == 0 {
        None
    } else {
        match first_repeat(s.drop_last()) {
            Some(x) => Some(x),
            None => if s.drop_last().contains(s.last()) {
                Some(s.last())
            } else {
                None
            },
        }
    }
}

/// Every language with a file extension has a name.
pub open spec fn named_when_extended(cfg: Seq<LanguageView>) -> bool {
    forall|i: int| 0 <= i < cfg.len() && (#[trigger] cfg[i]).exts.len() > 0 ==> cfg[i].languages.len() > 0
}

proof fn lemma_first_repeat_prefix(s: Seq<Seq<char>>, k: int)
    requires
        0 <= k <= s.len(),
        first_repeat(s.take(k)) is Some,
    ensures
        first_repeat(s) == first_repeat(s.take(k)),
    decreases s.len(),
{
    if k == s.len() {
        assert(s.take(k) =~= s);
    } else {
        assert(s.drop_last().take(k) =~= s.take(k));
        lemma_first_repeat_prefix(s.drop_last(), k);
    }
}

/// The first text of `items` that repeats an earlier one.
fn first_repeat_in(items: &Vec<String>) -> (r: Option<String>)
    ensures
        opt_string_view(r) == first_repeat(string_views(items@)),
{
    let ghost v = string_views(items@);
    let mut k: usize = 0;
    while k < items.len()
        invariant
            k <= items@.len(),
            v == string_views(items@),
            first_repeat(v.take(k as int)) is None,
        decreases items@.len() - k,
    {
        let mut j: usize = 0;
        while j < k
            invariant
                j <= k < items@.len(),
                v == string_views(items@),
                first_repeat(v.take(k as int)) is None,
                forall|jj: int| 0 <= jj < j ==> v[jj] != v[k as int],
            decreases k - j,
        {
            if same_text(items[j].as_str(), items[k].as_str()) {
                proof {
                    let t = v.take(k + 1);
                    assert(t.drop_last() =~= v.take(k as int));
                    assert(t.drop_last()[j as int] == t.last());
                    assert(t.last() == v[k as int]);
                    assert(first_repeat(t) == Some(v[k as int]));
                    lemma_first_repeat_prefix(v, k + 1);
                }
                return Some(items[k].clone());
            }
            j = j + 1;
        }
        proof {
            let t = v.take(k + 1);
            assert(t.drop_last() =~= v.take(k as int));
            assert(!t.drop_last().contains(t.last()));
        }
        k = k + 1;
    }
    assert(v.take(items@.len() as int) =~= v);
    None
}

/// The names (or, with `by_ext`, the file extensions) of the languages of `config`, in
/// order.
fn gather(config: &Vec<Language>, by_ext: bool) -> (r: Vec<String>)
    ensures
        string_views(r@) == (if by_ext {
            all_exts(language_views(config@))
        } else {
            all_names(language_views(config@))
        }),
{
    let ghost cfg = language_views(config@);
    let ghost target = if by_ext {
        all_exts(cfg)
    } else {
        all_names(cfg)
    };
    let mut out: Vec<String> = Vec::new();
    let mut i: usize = 0;
    while i < config.len()
        invariant
            i <= config@.len(),
            cfg == language_views(config@),
            string_views(out@) == (if by_ext {
                all_exts(cfg.take(i as int))
            } else {
                all_names(cfg.take(i as int))
            }),
        decreases config@.len() - i,
    {
        let list = if by_ext {
            &config[i].exts
        } else {
            &config[i].languages
        };
        let ghost before = string_views(out@);
        let mut j: usize = 0;
        while j < list.len()
            invariant
                j <= list@.len(),
                string_views(out@) =~= before + string_views(list@).take(j as int),
            decreases list@.len() - j,
        {
            let ghost prev = out@;
            out.push(list[j].clone());
            assert(string_views(out@) =~= string_views(prev).push(list@[j as int]@));
            assert(string_views(list@).take(j + 1) =~= string_views(list@).take(j as int).push(
                list@[j as int]@,
            ));
            j = j + 1;
        }
        assert(string_views(list@).take(list@.len() as int) =~= string_views(list@));
        assert(cfg.take(i + 1).drop_last() =~= cfg.take(i as int));
        i = i + 1;
    }
    assert(cfg.take(config@.len() as int) =~= cfg);
    out
}

/// A language name that two languages of `config` share (or one repeats), the first in
/// order; none when all names differ. A table with such a name is refused.
pub fn duplicate_language(config: &ConfigList) -> (r: Option<String>)
    ensures
        opt_string_view(r) == first_repeat(all_names(config@)),
{
    first_repeat_in(&gather(&config.config, false))
}

/// A file extension that two languages of `config` share (or one repeats), the first in
/// order; none when all extensions differ. A table with such an extension is refused.
pub fn duplicate_extension(config: &ConfigList) -> (r: Option<String>)
    ensures
        opt_string_view(r) == first_repeat(all_exts(config@)),
{
    first_repeat_in(&gather(&config.config, true))
}

/// The languages of a configuration, ready for lookups by name and by file extension.
#[derive(Debug)]
pub struct LanguageRegistry {
    config: Vec<Language>,
    unknown: Language,
}

impl View for LanguageRegistry {
    type V = Seq<LanguageView>;

    closed spec fn view(&self) -> Seq<LanguageView> {
        language_views(self.config@)
    }
}

impl LanguageRegistry {
    #[verifier::type_invariant]
    spec fn well_formed(self) -> bool {
        &&& self.unknown@ == unknown_language_view()
        &&& first_repeat(all_names(language_views(self.config@))) is None
        &&& first_repeat(all_exts(language_views(self.config@))) is None
        &&& named_when_extended(language_views(self.config@))
    }

    /// The table of the languages of `config`. Names and file extensions must each be
    /// unique (a table where one repeats is refused: see [`duplicate_language`] and
    /// [`duplicate_extension`]), and a language with a file extension must have a name.
    pub fn new(config: ConfigList) -> (r: LanguageRegistry)
        requires
            first_repeat(all_names(config@)) is None,
            first_repeat(all_exts(config@)) is None,
            named_when_extended(config@),
        ensures
            r@ == config@,
    {
        LanguageRegistry { config: config.config, unknown: unknown_language() }
    }

    /// The language with the name `language`, which is the only one with that name; the
    /// unknown language when none has it.
    pub fn get_language(&self, language: &str) -> (r: &Language)
        ensures
            r@ == resolve_language(self@, language@),
            forall|i: int|
                0 <= i < self@.len() && (#[trigger] self@[i]).languages.contains(language@)
                    ==> r@ == self@[i],
            !has_name(self@, language@) ==> r@ == unknown_language_view(),
    {
        proof {
            use_type_invariant(self);
            crate::laws::law_lookup_by_name(self@, language@);
            assert forall|i: int|
                0 <= i < self@.len() && (#[trigger] self@[i]).languages.contains(
                    language@,
                ) implies resolve_language(self@, language@) == self@[i] by {
                crate::laws::law_unique_name_lookup(self@, language@, i);
            }
        }
        match find_named(&self.config, language) {
            Some(i) => &self.config[i],
            None => &self.unknown,
        }
    }

    /// The language of the file extension `ext`, when some language has it.
    pub fn get_language_by_ext(&self, ext: &str) -> (r: Option<&Language>)
        ensures
            match r {
                Some(l) => resolve_extension(self@, ext@) == Some(l@),
                None => resolve_extension(self@, ext@) is None,
            },
            r is Some <==> has_ext(self@, ext@),
            r matches Some(l) ==> l@.exts.contains(ext@),
    {
        proof {
            use_type_invariant(self);
            crate::laws::law_lookup_by_ext(self@, ext@);
        }
        match find_with_ext(&self.config, ext) {
            Some(i) => Some(self.get_language(self.config[i].language())),
            None => None,
        }
    }
}

impl Language {
    /// A language from its parts.
    pub fn new(
        languages: Vec<String>,
        exts: Vec<String>,
        top_level_keywords: Option<Vec<String>>,
        line_comment: Option<String>,
        block_comment_start: Option<String>,
        block_comment_end: Option<String>,
        chunk_size: Option<usize>,
    ) -> (r: Language)
        ensures
            r@ == (LanguageView {
                languages: string_views(languages@),
                exts: string_views(exts@),
                top_level_keywords: match top_level_keywords {
                    Some(k) => Some(string_views(k@)),
                    None => None,
                },
                line_comment: opt_string_view(line_comment),
                block_comment_start: opt_string_view(block_comment_start),
                block_comment_end: opt_string_view(block_comment_end),
                chunk_size,
            }),
    {
        Language {
            languages,
            exts,
            top_level_keywords,
            line_comment,
            block_comment_start,
            block_comment_end,
            chunk_size,
        }
    }
}

impl ConfigList {
    /// A list of the given languages, in order.
    pub fn new(config: Vec<Language>) -> (r: ConfigList)
        ensures
            r@ == language_views(config@),
    {
        ConfigList { config }
    }

    /// Moves the languages of `more` to the end of the list.
    pub fn append(&mut self, more: &mut Vec<Language>)
        ensures
            final(self)@ == old(self)@ + language_views(old(more)@),
            final(more)@.len() == 0,
    {
        let ghost a = self.config@;
        let ghost b = more@;
        self.config.append(more);
        assert(language_views(a + b) =~= language_views(a) + language_views(b));
    }
}

impl Default for ConfigList {
    fn default() -> (r: ConfigList)
        ensures
            r@ == Seq::<LanguageView>::empty(),
    {
        let r = ConfigList { config: Vec::new() };
        assert(r@ =~= Seq::<LanguageView>::empty());
        r
    }
}

impl Language {
    /// The names of the language, the main one first.
    pub fn languages(&self) -> (r: &Vec<String>)
        ensures
            string_views(r@) == self@.languages,
    {
        &self.languages
    }

    /// The file extensions of the language.
    pub fn exts(&self) -> (r: &Vec<String>)
        ensures
            string_views(r@) == self@.exts,
    {
        &self.exts
    }

    /// The keywords that begin a top-level item of the language.
    pub fn top_level_keywords(&self) -> (r: &Option<Vec<String>>)
        ensures
            match r {
                Some(k) => self@.top_level_keywords == Some(string_views(k@)),
                None => self@.top_level_keywords is None,
            },
    {
        &self.top_level_keywords
    }
}

impl ConfigList {
    /// The languages of the list, in order.
    pub fn config(&self) -> (r: &Vec<Language>)
        ensures
            language_views(r@) == self@,
    {
        &self.config
    }
}

} // verus!
