//! Which grammar reads a file, and the queries that colour it.

use crate::paths::{cut_at_last, cut_last};
use crate::text::{
    after_last, chars_of, ends_with, find, find_from, has_suffix, is_space, lemma_find_from, lemma_trim_start_head,
    occurs_at, same, slice_string, string_of, trim, trim_end, trim_start, trimmed,
};
use vstd::prelude::*;

verus! {

/// The grammars that files are read with.
#[derive(Clone, Copy, PartialEq, Eq, Debug, Structural)]
pub enum Grammar {
    Python,
    Xonsh,
    JavaScript,
    Rust,
    TypeScript,
    Tsx,
    Go,
    C,
    Cpp,
    Java,
    Lua,
    Toml,
    Json,
    Yaml,
    Cmake,
    Make,
    Bash,
    Html,
    Svelte,
    Css,
    Nix,
    Ini,
    Markdown,
    MarkdownInline,
}

#[verifier::external_type_specification]
#[verifier::external_body]
pub struct ExLanguage(tree_sitter::Language);

/// A grammar's place in the table of languages.
#[verifier::allow_in_spec]
pub fn grammar_index(g: Grammar) -> usize
    returns
        (match g {
        Grammar::Python => 0usize,
        Grammar::Xonsh => 1usize,
        Grammar::JavaScript => 2usize,
        Grammar::Rust => 3usize,
        Grammar::TypeScript => 4usize,
        Grammar::Tsx => 5usize,
        Grammar::Go => 6usize,
        Grammar::C => 7usize,
        Grammar::Cpp => 8usize,
        Grammar::Java => 9usize,
        Grammar::Lua => 10usize,
        Grammar::Toml => 11usize,
        Grammar::Json => 12usize,
        Grammar::Yaml => 13usize,
        Grammar::Cmake => 14usize,
        Grammar::Make => 15usize,
        Grammar::Bash => 16usize,
        Grammar::Html => 17usize,
        Grammar::Svelte => 18usize,
        Grammar::Css => 19usize,
        Grammar::Nix => 20usize,
        Grammar::Ini => 21usize,
        Grammar::Markdown => 22usize,
        Grammar::MarkdownInline => 23usize,
        }),
{
    match g {
        Grammar::Python => 0usize,
        Grammar::Xonsh => 1usize,
        Grammar::JavaScript => 2usize,
        Grammar::Rust => 3usize,
        Grammar::TypeScript => 4usize,
        Grammar::Tsx => 5usize,
        Grammar::Go => 6usize,
        Grammar::C => 7usize,
        Grammar::Cpp => 8usize,
        Grammar::Java => 9usize,
        Grammar::Lua => 10usize,
        Grammar::Toml => 11usize,
        Grammar::Json => 12usize,
        Grammar::Yaml => 13usize,
        Grammar::Cmake => 14usize,
        Grammar::Make => 15usize,
        Grammar::Bash => 16usize,
        Grammar::Html => 17usize,
        Grammar::Svelte => 18usize,
        Grammar::Css => 19usize,
        Grammar::Nix => 20usize,
        Grammar::Ini => 21usize,
        Grammar::Markdown => 22usize,
        Grammar::MarkdownInline => 23usize,
    }
}

/// The place in the table that a language was taken from.
pub uninterp spec fn language_place(l: tree_sitter::Language) -> int;

/// The query at a place of the table of highlighting queries.
pub uninterp spec fn grammar_query(place: int) -> Seq<char>;

/// The language that a grammar crate exports as its `LANGUAGE`.
#[verifier::external_body]
pub(crate) fn language(place: usize) -> (r: tree_sitter::Language)
    requires
        place < 24,
    ensures
        language_place(r) == place,
{
    [
        tree_sitter_python::LANGUAGE, tree_sitter_xonsh::LANGUAGE,
        tree_sitter_javascript::LANGUAGE, tree_sitter_rust::LANGUAGE,
        tree_sitter_typescript::LANGUAGE_TYPESCRIPT, tree_sitter_typescript::LANGUAGE_TSX,
        tree_sitter_go::LANGUAGE, tree_sitter_c::LANGUAGE,
        tree_sitter_cpp::LANGUAGE, tree_sitter_java::LANGUAGE,
        tree_sitter_lua::LANGUAGE, tree_sitter_toml_ng::LANGUAGE,
        tree_sitter_json::LANGUAGE, tree_sitter_yaml::LANGUAGE,
        tree_sitter_cmake::LANGUAGE, tree_sitter_make::LANGUAGE,
        tree_sitter_bash::LANGUAGE, tree_sitter_html::LANGUAGE,
        tree_sitter_svelte_ng::LANGUAGE, tree_sitter_css::LANGUAGE,
        tree_sitter_nix::LANGUAGE, tree_sitter_ini::LANGUAGE,
        tree_sitter_md::LANGUAGE, tree_sitter_md::INLINE_LANGUAGE,
    ][place].into()
}

/// The highlighting query that a grammar crate exports as its
/// `HIGHLIGHTS_QUERY`; its text is left to the crate.
#[verifier::external_body]
fn raw_query(place: usize) -> (r: String)
    requires
        place < 22,
    ensures
        r@ == grammar_query(place as int),
{
    [
        tree_sitter_python::HIGHLIGHTS_QUERY, tree_sitter_javascript::HIGHLIGHT_QUERY,
        tree_sitter_rust::HIGHLIGHTS_QUERY, tree_sitter_typescript::HIGHLIGHTS_QUERY,
        tree_sitter_go::HIGHLIGHTS_QUERY, tree_sitter_c::HIGHLIGHT_QUERY,
        tree_sitter_cpp::HIGHLIGHT_QUERY, tree_sitter_java::HIGHLIGHTS_QUERY,
        tree_sitter_lua::HIGHLIGHTS_QUERY, tree_sitter_toml_ng::HIGHLIGHTS_QUERY,
        tree_sitter_json::HIGHLIGHTS_QUERY, tree_sitter_yaml::HIGHLIGHTS_QUERY,
        tree_sitter_cmake::HIGHLIGHTS_QUERY, tree_sitter_make::HIGHLIGHTS_QUERY,
        tree_sitter_bash::HIGHLIGHT_QUERY, tree_sitter_html::HIGHLIGHTS_QUERY,
        tree_sitter_svelte_ng::HIGHLIGHTS_QUERY, tree_sitter_css::HIGHLIGHTS_QUERY,
        tree_sitter_nix::HIGHLIGHTS_QUERY, tree_sitter_ini::HIGHLIGHTS_QUERY,
        tree_sitter_md::HIGHLIGHT_QUERY_BLOCK, tree_sitter_md::HIGHLIGHT_QUERY_INLINE,
    ][place].to_owned()
}

/// The place of a grammar's query in the table: a grammar without one of its
/// own takes that of the language it extends.
#[verifier::allow_in_spec]
pub fn query_index(g: Grammar) -> usize
    returns
        (match g {
        Grammar::Python => 0usize,
        Grammar::Xonsh => 0usize,
        Grammar::JavaScript => 1usize,
        Grammar::Rust => 2usize,
        Grammar::TypeScript => 3usize,
        Grammar::Tsx => 3usize,
        Grammar::Go => 4usize,
        Grammar::C => 5usize,
        Grammar::Cpp => 6usize,
        Grammar::Java => 7usize,
        Grammar::Lua => 8usize,
        Grammar::Toml => 9usize,
        Grammar::Json => 10usize,
        Grammar::Yaml => 11usize,
        Grammar::Cmake => 12usize,
        Grammar::Make => 13usize,
        Grammar::Bash => 14usize,
        Grammar::Html => 15usize,
        Grammar::Svelte => 16usize,
        Grammar::Css => 17usize,
        Grammar::Nix => 18usize,
        Grammar::Ini => 19usize,
        Grammar::Markdown => 20usize,
        Grammar::MarkdownInline => 21usize,
        }),
{
    match g {
        Grammar::Python => 0usize,
        Grammar::Xonsh => 0usize,
        Grammar::JavaScript => 1usize,
        Grammar::Rust => 2usize,
        Grammar::TypeScript => 3usize,
        Grammar::Tsx => 3usize,
        Grammar::Go => 4usize,
        Grammar::C => 5usize,
        Grammar::Cpp => 6usize,
        Grammar::Java => 7usize,
        Grammar::Lua => 8usize,
        Grammar::Toml => 9usize,
        Grammar::Json => 10usize,
        Grammar::Yaml => 11usize,
        Grammar::Cmake => 12usize,
        Grammar::Make => 13usize,
        Grammar::Bash => 14usize,
        Grammar::Html => 15usize,
        Grammar::Svelte => 16usize,
        Grammar::Css => 17usize,
        Grammar::Nix => 18usize,
        Grammar::Ini => 19usize,
        Grammar::Markdown => 20usize,
        Grammar::MarkdownInline => 21usize,
    }
}

/// `s` with every occurrence of `from`, taken from the left, replaced by `to`.
pub open spec fn replaced_text(s: Seq<char>, from: Seq<char>, to: Seq<char>) -> Seq<char>
    decreases s.len(),
{
    let at = find_from(s, from, 0);
    if from.len() == 0 || at + from.len() > s.len() || at < 0 {
        s
    } else {
        s.take(at) + to + replaced_text(s.skip(at + from.len()), from, to)
    }
}

/// Replaces every occurrence of a text.
pub fn replace_text(s: &str, from: &str, to: &str) -> (r: String)
    requires
        from@.len() > 0,
    ensures
        r@ == replaced_text(s@, from@, to@),
{
    let cs = chars_of(s);
    let pat = chars_of(from);
    let n: usize = cs.len();
    let mut out = String::new();
    let mut at: usize = 0;
    assert(s@.skip(0) == s@);
    assert(out@ + replaced_text(s@.skip(0), from@, to@) == replaced_text(s@, from@, to@));
    loop
        invariant
            cs@ == s@,
            n == cs@.len(),
            pat@ == from@,
            pat@.len() > 0,
            at <= cs@.len(),
            out@ + replaced_text(s@.skip(at as int), from@, to@) == replaced_text(s@, from@, to@),
        decreases cs@.len() - at,
    {
        let ghost rest = s@.skip(at as int);
        proof {
            lemma_find_shift(s@, from@, at as int, 0);
            lemma_find_from(s@, from@, at as int);
            lemma_find_from(rest, from@, 0);
        }
        match find(&cs, &pat, at) {
            Some(i) => {
                proof {
                    let k = i - at;
                    assert(rest.take(k) == s@.subrange(at as int, i as int));
                    assert(rest.skip(k + from@.len()) == s@.skip(i + from@.len()));
                    assert(replaced_text(rest, from@, to@) == rest.take(k) + to@ + replaced_text(
                        rest.skip(k + from@.len()),
                        from@,
                        to@,
                    ));
                }
                let ghost had = out@;
                out = out.concat(&slice_string(&cs, at, i)).concat(to);
                at = i + pat.len();
                assert(out@ + replaced_text(s@.skip(at as int), from@, to@) =~= had + replaced_text(
                    rest,
                    from@,
                    to@,
                ));
            },
            None => {
                let tail = slice_string(&cs, at, n);
                assert(tail@ == rest);
                return out.concat(&tail);
            },
        }
    }
}

proof fn lemma_find_shift(s: Seq<char>, pat: Seq<char>, at: int, from: int)
    requires
        0 <= at <= s.len(),
        0 <= from <= s.len() - at + 1,
    ensures
        find_from(s, pat, at + from) == at + find_from(s.skip(at), pat, from),
    decreases s.len() - at + 1 - from,
{
    let t = s.skip(at);
    if from <= t.len() {
        if from + pat.len() <= t.len() {
            assert(t.subrange(from, from + pat.len()) == s.subrange(at + from, at + from + pat.len()));
        }
        assert(occurs_at(t, pat, from) == occurs_at(s, pat, at + from));
        lemma_find_shift(s, pat, at, from + 1);
    }
}

/// The query that colours a grammar's files. C++ builds on C; a fenced block of
/// markdown is left to the language that it holds.
pub open spec fn query_of(g: Grammar) -> Seq<char> {
    match g {
        Grammar::Cpp => grammar_query(query_index(Grammar::C) as int) + "\n"@ + grammar_query(
            query_index(g) as int,
        ),
        Grammar::Markdown => replaced_text(
            grammar_query(query_index(g) as int),
            "\n  (fenced_code_block)\n"@,
            "\n"@,
        ),
        _ => grammar_query(query_index(g) as int),
    }
}

/// The query for the block structure of markdown.
pub fn md_block_query() -> (r: String)
    ensures
        r@ == query_of(Grammar::Markdown),
{
    proof {
        reveal_strlit("\n  (fenced_code_block)\n");
    }
    replace_text(&raw_query(query_index(Grammar::Markdown)), "\n  (fenced_code_block)\n", "\n")
}

pub fn highlight_query(g: Grammar) -> (r: String)
    ensures
        r@ == query_of(g),
{
    match g {
        Grammar::Cpp => raw_query(query_index(Grammar::C)).concat("\n").concat(
            &raw_query(query_index(Grammar::Cpp)),
        ),
        Grammar::Markdown => md_block_query(),
        _ => raw_query(query_index(g)),
    }
}

/// The path of the format underneath a template.
pub open spec fn untemplated(path: Seq<char>) -> Seq<char> {
    match cut_at_last(path, '.') {
        Some((head, ext)) => if ext == "j2"@ || ext == "jinja"@ || ext == "jinja2"@ || ext == "tmpl"@ || ext == "tpl"@ || ext == "erb"@ || ext == "ejs"@ || ext == "gotmpl"@ {
            head
        } else {
            path
        },
        None => path,
    }
}

fn strip_template(path: &str) -> (r: String)
    ensures
        r@ == untemplated(path@),
{
    if let Some((head, ext)) = cut_last(path, '.') {
        if same(&ext, "j2") || same(&ext, "jinja") || same(&ext, "jinja2") || same(&ext, "tmpl") || same(&ext, "tpl") || same(&ext, "erb") || same(&ext, "ejs") || same(&ext, "gotmpl") {
            return head;
        }
    }
    path.to_owned()
}

/// What stands behind the last `/` of a path.
pub open spec fn base_name(path: Seq<char>) -> Seq<char> {
    match cut_at_last(path, '/') {
        Some((_, name)) => name,
        None => path,
    }
}

/// A path and its file name without a trailing `.local`.
pub open spec fn unlocal(path: Seq<char>) -> (Seq<char>, Seq<char>) {
    let name = base_name(path);
    match cut_at_last(name, '.') {
        Some((head, ext)) => if ext == "local"@ && head.len() > 0 {
            (
                if ends_with(path, ".local"@) {
                    path.take(path.len() - 6)
                } else {
                    path
                },
                head,
            )
        } else {
            (path, name)
        },
        None => (path, name),
    }
}

fn strip_local(path: &str) -> (r: (String, String))
    ensures
        (r.0@, r.1@) == unlocal(path@),
{
    let name = match cut_last(path, '/') {
        Some((_, name)) => name,
        None => path.to_owned(),
    };
    if let Some((head, ext)) = cut_last(&name, '.') {
        if same(&ext, "local") && !head.as_str().is_empty() {
            proof {
                reveal_strlit(".local");
            }
            let bare = match crate::text::strip_suffix(path, ".local") {
                Some(p) => p,
                None => path.to_owned(),
            };
            return (bare, head);
        }
    }
    (path.to_owned(), name)
}

/// The text behind the last `.` of a name, or the whole name.
pub open spec fn extension(name: Seq<char>) -> Seq<char> {
    match cut_at_last(name, '.') {
        Some((_, ext)) => ext,
        None => name,
    }
}

/// The grammar that a file extension names.
pub open spec fn grammar_for_extension(ext: Seq<char>) -> Option<Grammar> {
    if ext == "py"@ || ext == "pyi"@ {
        Some(Grammar::Python)
    } else if ext == "xsh"@ || ext == "xonsh"@ || ext == "xonshrc"@ {
        Some(Grammar::Xonsh)
    } else if ext == "js"@ || ext == "mjs"@ || ext == "cjs"@ || ext == "jsx"@ {
        Some(Grammar::JavaScript)
    } else if ext == "rs"@ {
        Some(Grammar::Rust)
    } else if ext == "ts"@ || ext == "mts"@ || ext == "cts"@ {
        Some(Grammar::TypeScript)
    } else if ext == "tsx"@ {
        Some(Grammar::Tsx)
    } else if ext == "go"@ {
        Some(Grammar::Go)
    } else if ext == "c"@ || ext == "h"@ {
        Some(Grammar::C)
    } else if ext == "cc"@ || ext == "cpp"@ || ext == "cxx"@ || ext == "hpp"@ || ext == "hh"@ || ext == "hxx"@ {
        Some(Grammar::Cpp)
    } else if ext == "java"@ {
        Some(Grammar::Java)
    } else if ext == "lua"@ {
        Some(Grammar::Lua)
    } else if ext == "toml"@ {
        Some(Grammar::Toml)
    } else if ext == "json"@ {
        Some(Grammar::Json)
    } else if ext == "yml"@ || ext == "yaml"@ {
        Some(Grammar::Yaml)
    } else if ext == "cmake"@ {
        Some(Grammar::Cmake)
    } else if ext == "mk"@ || ext == "mak"@ || ext == "make"@ {
        Some(Grammar::Make)
    } else if ext == "sh"@ || ext == "bash"@ {
        Some(Grammar::Bash)
    } else if ext == "html"@ || ext == "htm"@ || ext == "vue"@ {
        Some(Grammar::Html)
    } else if ext == "svelte"@ {
        Some(Grammar::Svelte)
    } else if ext == "css"@ {
        Some(Grammar::Css)
    } else if ext == "nix"@ {
        Some(Grammar::Nix)
    } else if ext == "ini"@ || ext == "cfg"@ {
        Some(Grammar::Ini)
    } else if ext == "md"@ || ext == "markdown"@ {
        Some(Grammar::Markdown)
    } else {
        None
    }
}

fn grammar_by_extension(ext: &str) -> (r: Option<Grammar>)
    ensures
        r == grammar_for_extension(ext@),
{
    if same(ext, "py") || same(ext, "pyi") {
        Some(Grammar::Python)
    } else if same(ext, "xsh") || same(ext, "xonsh") || same(ext, "xonshrc") {
        Some(Grammar::Xonsh)
    } else if same(ext, "js") || same(ext, "mjs") || same(ext, "cjs") || same(ext, "jsx") {
        Some(Grammar::JavaScript)
    } else if same(ext, "rs") {
        Some(Grammar::Rust)
    } else if same(ext, "ts") || same(ext, "mts") || same(ext, "cts") {
        Some(Grammar::TypeScript)
    } else if same(ext, "tsx") {
        Some(Grammar::Tsx)
    } else if same(ext, "go") {
        Some(Grammar::Go)
    } else if same(ext, "c") || same(ext, "h") {
        Some(Grammar::C)
    } else if same(ext, "cc") || same(ext, "cpp") || same(ext, "cxx") || same(ext, "hpp") || same(ext, "hh") || same(ext, "hxx") {
        Some(Grammar::Cpp)
    } else if same(ext, "java") {
        Some(Grammar::Java)
    } else if same(ext, "lua") {
        Some(Grammar::Lua)
    } else if same(ext, "toml") {
        Some(Grammar::Toml)
    } else if same(ext, "json") {
        Some(Grammar::Json)
    } else if same(ext, "yml") || same(ext, "yaml") {
        Some(Grammar::Yaml)
    } else if same(ext, "cmake") {
        Some(Grammar::Cmake)
    } else if same(ext, "mk") || same(ext, "mak") || same(ext, "make") {
        Some(Grammar::Make)
    } else if same(ext, "sh") || same(ext, "bash") {
        Some(Grammar::Bash)
    } else if same(ext, "html") || same(ext, "htm") || same(ext, "vue") {
        Some(Grammar::Html)
    } else if same(ext, "svelte") {
        Some(Grammar::Svelte)
    } else if same(ext, "css") {
        Some(Grammar::Css)
    } else if same(ext, "nix") {
        Some(Grammar::Nix)
    } else if same(ext, "ini") || same(ext, "cfg") {
        Some(Grammar::Ini)
    } else if same(ext, "md") || same(ext, "markdown") {
        Some(Grammar::Markdown)
    } else {
        None
    }
}

/// The grammar of a path that is not a template: by its name, else by its
/// extension.
pub open spec fn grammar_for_plain(path: Seq<char>) -> Option<Grammar> {
    let parts = unlocal(path);
    let bare = parts.0;
    let name = parts.1;
    if name == "CMakeLists.txt"@ {
        Some(Grammar::Cmake)
    } else if name == ".bashrc"@ || name == ".bash_profile"@ || name == ".profile"@ || name == ".env"@ {
        Some(Grammar::Bash)
    } else if name == "Makefile"@ || name == "makefile"@ || name == "GNUmakefile"@ || name == "Makefile.am"@ || name == "Makefile.in"@ {
        Some(Grammar::Make)
    } else if name == ".gitconfig"@ || name == ".gitmodules"@ || name == ".editorconfig"@ || name == ".npmrc"@ || name == ".hgrc"@ || name == ".flake8"@ || name == ".pylintrc"@ || name == ".coveragerc"@
        || ends_with(bare, ".git/config"@) || ends_with(bare, ".dvc/config"@) {
        Some(Grammar::Ini)
    } else {
        grammar_for_extension(extension(name))
    }
}

/// The grammar that a file is read with; a template is read as the format
/// underneath it.
pub open spec fn grammar_for(path: Seq<char>) -> Option<Grammar> {
    grammar_for_plain(untemplated(path))
}

/// The grammar that a file is read with.
pub fn grammar_of_path(path: &str) -> (r: Option<Grammar>)
    ensures
        r == grammar_for(path@),
{
    let plain = strip_template(path);
    let parts = strip_local(&plain);
    let bare: &str = &parts.0;
    let name: &str = &parts.1;
    if same(name, "CMakeLists.txt") {
        Some(Grammar::Cmake)
    } else if same(name, ".bashrc") || same(name, ".bash_profile") || same(name, ".profile") || same(name, ".env") {
        Some(Grammar::Bash)
    } else if same(name, "Makefile") || same(name, "makefile") || same(name, "GNUmakefile") || same(name, "Makefile.am") || same(name, "Makefile.in") {
        Some(Grammar::Make)
    } else if same(name, ".gitconfig") || same(name, ".gitmodules") || same(name, ".editorconfig") || same(name, ".npmrc") || same(name, ".hgrc") || same(name, ".flake8") || same(name, ".pylintrc") || same(name, ".coveragerc")
        || has_suffix(bare, ".git/config") || has_suffix(bare, ".dvc/config") {
        Some(Grammar::Ini)
    } else {
        match cut_last(name, '.') {
            Some((_, ext)) => grammar_by_extension(&ext),
            None => grammar_by_extension(name),
        }
    }
}

/// The grammar that a file is read with, and the query that colours it.
pub fn highlight_spec(path: &str) -> (r: Option<(Grammar, String)>)
    ensures
        match r {
            Some((g, query)) => grammar_for(path@) == Some(g) && query@ == query_of(g),
            None => grammar_for(path@) is None,
        },
{
    match grammar_of_path(path) {
        Some(g) => Some((g, highlight_query(g))),
        None => None,
    }
}

/// Whether a character ends the language's name in a fence.
pub open spec fn ends_fence_word(c: char) -> bool {
    c == ' ' || c == ',' || c == '{' || c == ':'
}

/// How many characters come before the first that ends the word.
pub open spec fn fence_word_len(s: Seq<char>, from: int) -> int
    decreases s.len() - from,
{
    if from >= s.len() || ends_fence_word(s[from]) {
        from
    } else {
        fence_word_len(s, from + 1)
    }
}

/// The letters `A` to `Z` of a text in lower case.
pub fn ascii_lower(s: &str) -> (r: String)
    ensures
        r@ == crate::text::ascii_lowercase(s@),
{
    let cs = chars_of(s);
    let mut out: Vec<char> = Vec::new();
    for i in 0..cs.len()
        invariant
            cs@ == s@,
            out@ == crate::text::ascii_lowercase(s@).take(i as int),
    {
        let c = cs[i];
        if 'A' <= c && c <= 'Z' {
            let b: u8 = (c as u8) + 32;
            out.push(b as char);
        } else {
            out.push(c);
        }
        assert(crate::text::ascii_lowercase(s@).take(i + 1) == crate::text::ascii_lowercase(s@).take(
            i as int,
        ).push(crate::text::ascii_lowercase(s@)[i as int]));
    }
    assert(crate::text::ascii_lowercase(s@).take(s@.len() as int) == crate::text::ascii_lowercase(s@));
    string_of(&out)
}

/// The word of a fence's info string that names the language.
pub open spec fn fence_word(info: Seq<char>) -> Seq<char> {
    let t = trimmed(info);
    crate::text::ascii_lowercase(trimmed(t.take(fence_word_len(t, 0))))
}

/// The extension of the files of a language, by the name a fence gives it.
pub open spec fn fence_extension(word: Seq<char>) -> Option<Seq<char>> {
    if word == "py"@ || word == "python"@ || word == "python3"@ || word == "pyi"@ {
        Some("py"@)
    } else if word == "xsh"@ || word == "xonsh"@ {
        Some("xsh"@)
    } else if word == "js"@ || word == "javascript"@ || word == "node"@ || word == "mjs"@ || word == "cjs"@ || word == "jsx"@ {
        Some("js"@)
    } else if word == "ts"@ || word == "typescript"@ || word == "mts"@ || word == "cts"@ {
        Some("ts"@)
    } else if word == "tsx"@ {
        Some("tsx"@)
    } else if word == "rs"@ || word == "rust"@ {
        Some("rs"@)
    } else if word == "go"@ || word == "golang"@ {
        Some("go"@)
    } else if word == "c"@ {
        Some("c"@)
    } else if word == "cpp"@ || word == "c++"@ || word == "cc"@ || word == "cxx"@ || word == "hpp"@ {
        Some("cpp"@)
    } else if word == "java"@ {
        Some("java"@)
    } else if word == "lua"@ {
        Some("lua"@)
    } else if word == "toml"@ {
        Some("toml"@)
    } else {
        None
    }
}

/// The extension that stands for the language of a fence; none for a language
/// without a grammar.
pub fn fence_ext(name: &str) -> (r: Option<&'static str>)
    ensures
        match r {
            Some(ext) => fence_extension(fence_word(name@)) == Some(ext@),
            None => fence_extension(fence_word(name@)) is None,
        },
{
    let t = trim(name);
    let cs = chars_of(&t);
    let mut i: usize = 0;
    while i < cs.len() && !(cs[i] == ' ' || cs[i] == ',' || cs[i] == '{' || cs[i] == ':')
        invariant
            cs@ == trimmed(name@),
            i <= cs@.len(),
            fence_word_len(cs@, 0) == fence_word_len(cs@, i as int),
        decreases cs@.len() - i,
    {
        i = i + 1;
    }
    let first = slice_string(&cs, 0, i);
    assert(first@ == cs@.take(i as int));
    let word = ascii_lower(&trim(&first));
    if same(&word, "py") || same(&word, "python") || same(&word, "python3") || same(&word, "pyi") {
        Some("py")
    } else if same(&word, "xsh") || same(&word, "xonsh") {
        Some("xsh")
    } else if same(&word, "js") || same(&word, "javascript") || same(&word, "node") || same(&word, "mjs") || same(&word, "cjs") || same(&word, "jsx") {
        Some("js")
    } else if same(&word, "ts") || same(&word, "typescript") || same(&word, "mts") || same(&word, "cts") {
        Some("ts")
    } else if same(&word, "tsx") {
        Some("tsx")
    } else if same(&word, "rs") || same(&word, "rust") {
        Some("rs")
    } else if same(&word, "go") || same(&word, "golang") {
        Some("go")
    } else if same(&word, "c") {
        Some("c")
    } else if same(&word, "cpp") || same(&word, "c++") || same(&word, "cc") || same(&word, "cxx") || same(&word, "hpp") {
        Some("cpp")
    } else if same(&word, "java") {
        Some("java")
    } else if same(&word, "lua") {
        Some("lua")
    } else if same(&word, "toml") {
        Some("toml")
    } else {
        None
    }
}

/// A template is read as the format underneath it.
pub proof fn law_a_template_is_read_as_what_it_makes(path: Seq<char>)
    ensures
        grammar_for(path + ".j2"@) == grammar_for_plain(path),
{
    reveal_strlit(".j2");
    reveal_strlit("j2");
    let whole = path + ".j2"@;
    let n = whole.len() as int;
    assert(whole[n - 1] == '2' && whole[n - 2] == 'j' && whole[n - 3] == '.');
    reveal_with_fuel(crate::text::after_last, 4);
    assert(crate::text::after_last(whole, '.', n) == n - 2);
    assert(whole.skip(n - 2) =~= "j2"@);
    assert(whole.take(n - 3) =~= path);
}

/// Where a character does not occur, nothing is cut.
proof fn lemma_after_last_absent(s: Seq<char>, c: char, upto: int)
    requires
        0 <= upto <= s.len(),
        forall|i: int| 0 <= i < upto ==> s[i] != c,
    ensures
        after_last(s, c, upto) == 0,
    decreases upto,
{
    if upto > 0 {
        lemma_after_last_absent(s, c, upto - 1);
    }
}

/// The cut is behind the last of the characters.
proof fn lemma_after_last_at(s: Seq<char>, c: char, at: int, upto: int)
    requires
        0 <= at < upto <= s.len(),
        s[at] == c,
        forall|i: int| at < i < upto ==> s[i] != c,
    ensures
        after_last(s, c, upto) == at + 1,
    decreases upto,
{
    if upto > at + 1 {
        lemma_after_last_at(s, c, at, upto - 1);
    }
}

/// A file that is called `x` has the grammar of its extension.
proof fn lemma_grammar_of_extension(e: Seq<char>)
    requires
        0 < e.len() <= 4,
        !e.contains('.'),
        !e.contains('/'),
        untemplated("x."@ + e) == "x."@ + e,
        e != "local"@,
    ensures
        grammar_for("x."@ + e) == grammar_for_extension(e),
{
    reveal_strlit("x.");
    reveal_strlit(".git/config");
    reveal_strlit(".dvc/config");
    reveal_strlit("CMakeLists.txt");
    reveal_strlit(".bashrc");
    reveal_strlit(".bash_profile");
    reveal_strlit(".profile");
    reveal_strlit(".env");
    reveal_strlit("Makefile");
    reveal_strlit("makefile");
    reveal_strlit("GNUmakefile");
    reveal_strlit("Makefile.am");
    reveal_strlit("Makefile.in");
    reveal_strlit(".gitconfig");
    reveal_strlit(".gitmodules");
    reveal_strlit(".editorconfig");
    reveal_strlit(".npmrc");
    reveal_strlit(".hgrc");
    reveal_strlit(".flake8");
    reveal_strlit(".pylintrc");
    reveal_strlit(".coveragerc");
    let path = "x."@ + e;
    let n = path.len() as int;
    assert(path[0] == 'x' && path[1] == '.');
    assert forall|i: int| 2 <= i < n implies path[i] != '.' && path[i] != '/' by {
        assert(path[i] == e[i - 2]);
        assert(e.contains(e[i - 2]));
    }
    lemma_after_last_at(path, '.', 1, n);
    lemma_after_last_absent(path, '/', n);
    assert(base_name(path) == path);
    assert(path.skip(2) =~= e);
    assert(unlocal(path) == (path, path));
}

/// Every extension that stands for the language of a fence has a grammar.
pub proof fn law_a_fence_extension_has_a_grammar(word: Seq<char>)
    requires
        fence_extension(word) is Some,
    ensures
        grammar_for("x."@ + fence_extension(word)->0) is Some,
{
    let e = fence_extension(word)->0;
    reveal_strlit("x.");
    reveal_strlit("local");
    reveal_strlit("j2");
    reveal_strlit("jinja");
    reveal_strlit("jinja2");
    reveal_strlit("tmpl");
    reveal_strlit("tpl");
    reveal_strlit("erb");
    reveal_strlit("ejs");
    reveal_strlit("gotmpl");
    reveal_strlit("py");
    reveal_strlit("xsh");
    reveal_strlit("js");
    reveal_strlit("ts");
    reveal_strlit("tsx");
    reveal_strlit("rs");
    reveal_strlit("go");
    reveal_strlit("c");
    reveal_strlit("cpp");
    reveal_strlit("java");
    reveal_strlit("lua");
    reveal_strlit("toml");
    assert(forall|i: int| 0 <= i < e.len() ==> 'a' <= #[trigger] e[i] <= 'z');
    let path = "x."@ + e;
    let n = path.len() as int;
    assert forall|i: int| 2 <= i < n implies path[i] != '.' by {
        assert(path[i] == e[i - 2]);
    }
    lemma_after_last_at(path, '.', 1, n);
    assert(path.skip(2) =~= e);
    assert(e.len() != 2 || e[0] != 'j' || e[1] != '2');
    assert(e[0] != 't' || e.len() < 3 || e[1] == 's' || e[1] == 'o');
    assert(e[0] != 'e');
    assert(untemplated(path) == path);
    lemma_grammar_of_extension(e);
}

/// Whether two texts differ in the case of ASCII letters at most.
pub open spec fn same_but_case(a: Seq<char>, b: Seq<char>) -> bool {
    crate::text::ascii_lowercase(a) == crate::text::ascii_lowercase(b)
}

/// Where two texts differ in case alone, their characters part words alike.
proof fn lemma_same_but_case(a: Seq<char>, b: Seq<char>)
    requires
        same_but_case(a, b),
    ensures
        a.len() == b.len(),
        forall|i: int|
            0 <= i < a.len() ==> is_space(#[trigger] a[i]) == is_space(b[i]) && ends_fence_word(a[i]) == ends_fence_word(
                b[i],
            ),
        forall|i: int, j: int| 0 <= i <= j <= a.len() ==> same_but_case(#[trigger] a.subrange(i, j), b.subrange(i, j)),
{
    let la = crate::text::ascii_lowercase(a);
    let lb = crate::text::ascii_lowercase(b);
    assert(la.len() == lb.len());
    assert forall|i: int| 0 <= i < a.len() implies is_space(#[trigger] a[i]) == is_space(b[i]) && ends_fence_word(a[i])
        == ends_fence_word(b[i]) by {
        assert(la[i] == lb[i]);
    }
    assert forall|i: int, j: int| 0 <= i <= j <= a.len() implies same_but_case(
        #[trigger] a.subrange(i, j),
        b.subrange(i, j),
    ) by {
        assert(crate::text::ascii_lowercase(a.subrange(i, j)) =~= la.subrange(i, j));
        assert(crate::text::ascii_lowercase(b.subrange(i, j)) =~= lb.subrange(i, j));
    }
}

proof fn lemma_trim_start_alike(a: Seq<char>, b: Seq<char>)
    requires
        same_but_case(a, b),
    ensures
        same_but_case(trim_start(a), trim_start(b)),
    decreases a.len(),
{
    lemma_same_but_case(a, b);
    if a.len() > 0 && is_space(a[0]) {
        assert(a.skip(1) =~= a.subrange(1, a.len() as int));
        assert(b.skip(1) =~= b.subrange(1, b.len() as int));
        lemma_trim_start_alike(a.skip(1), b.skip(1));
    }
}

proof fn lemma_trim_end_alike(a: Seq<char>, b: Seq<char>)
    requires
        same_but_case(a, b),
    ensures
        same_but_case(trim_end(a), trim_end(b)),
    decreases a.len(),
{
    lemma_same_but_case(a, b);
    if a.len() > 0 {
        assert(is_space(a[a.len() - 1]) == is_space(b[a.len() - 1]));
        if is_space(a.last()) {
            assert(a.drop_last() =~= a.subrange(0, a.len() - 1));
            assert(b.drop_last() =~= b.subrange(0, b.len() - 1));
            lemma_trim_end_alike(a.drop_last(), b.drop_last());
        }
    }
}

proof fn lemma_word_len_alike(a: Seq<char>, b: Seq<char>, from: int)
    requires
        same_but_case(a, b),
        0 <= from <= a.len(),
    ensures
        fence_word_len(a, from) == fence_word_len(b, from),
        from <= fence_word_len(a, from) <= a.len(),
    decreases a.len() - from,
{
    lemma_same_but_case(a, b);
    if from < a.len() && !ends_fence_word(a[from]) {
        lemma_word_len_alike(a, b, from + 1);
    }
}

/// The case of a fence's language does not matter.
pub proof fn law_the_case_of_a_fence_does_not_matter(a: Seq<char>, b: Seq<char>)
    requires
        same_but_case(a, b),
    ensures
        fence_word(a) == fence_word(b),
{
    lemma_trim_start_alike(a, b);
    lemma_trim_end_alike(trim_start(a), trim_start(b));
    let ta = trimmed(a);
    let tb = trimmed(b);
    lemma_word_len_alike(ta, tb, 0);
    lemma_same_but_case(ta, tb);
    let n = fence_word_len(ta, 0);
    let wa = ta.take(n);
    let wb = tb.take(n);
    assert(wa =~= ta.subrange(0, n));
    assert(wb =~= tb.subrange(0, n));
    lemma_trim_start_alike(wa, wb);
    lemma_trim_end_alike(trim_start(wa), trim_start(wb));
}

/// What trimming at the end leaves, and that only white space goes.
proof fn lemma_trim_end_cuts(s: Seq<char>)
    ensures
        trim_end(s).len() <= s.len(),
        trim_end(s) == s.take(trim_end(s).len() as int),
        forall|i: int| trim_end(s).len() <= i < s.len() ==> is_space(#[trigger] s[i]),
        trim_end(s).len() > 0 ==> !is_space(trim_end(s).last()),
    decreases s.len(),
{
    if s.len() > 0 && is_space(s.last()) {
        let t = s.drop_last();
        lemma_trim_end_cuts(t);
        let n = trim_end(s).len() as int;
        assert(t.take(n) =~= s.take(n));
        assert forall|i: int| n <= i < s.len() implies is_space(#[trigger] s[i]) by {
            if i < s.len() - 1 {
                assert(t[i] == s[i]);
            }
        }
    } else {
        assert(s.take(s.len() as int) =~= s);
    }
}

/// White space at the end makes no difference to what is left of it.
proof fn lemma_trim_end_of_more(s: Seq<char>, n: int)
    requires
        0 <= n <= s.len(),
        forall|i: int| n <= i < s.len() ==> is_space(#[trigger] s[i]),
    ensures
        trim_end(s) == trim_end(s.take(n)),
    decreases s.len(),
{
    if n < s.len() {
        assert(is_space(s[s.len() - 1]));
        lemma_trim_end_of_more(s.drop_last(), n);
        assert(s.drop_last().take(n) =~= s.take(n));
    } else {
        assert(s.take(n) =~= s);
    }
}

proof fn lemma_word_len(s: Seq<char>, from: int)
    requires
        0 <= from <= s.len(),
    ensures
        from <= fence_word_len(s, from) <= s.len(),
        forall|i: int| from <= i < fence_word_len(s, from) ==> !ends_fence_word(#[trigger] s[i]),
        fence_word_len(s, from) < s.len() ==> ends_fence_word(s[fence_word_len(s, from)]),
    decreases s.len() - from,
{
    if from < s.len() && !ends_fence_word(s[from]) {
        lemma_word_len(s, from + 1);
    }
}

/// The word of an info string, without trimming the end of the string first.
proof fn lemma_fence_word(s: Seq<char>)
    ensures
        ({
            let u = trim_start(s);
            fence_word(s) == crate::text::ascii_lowercase(trim_end(u.take(fence_word_len(u, 0))))
        }),
{
    let u = trim_start(s);
    let t = trim_end(u);
    let m = t.len() as int;
    lemma_trim_end_cuts(u);
    lemma_word_len(u, 0);
    lemma_word_len(t, 0);
    lemma_trim_start_head(s);
    let w = fence_word_len(u, 0);
    let v = fence_word_len(t, 0);
    if w < m {
        assert(t[w] == u[w]);
        if v < w {
            assert(t[v] == u[v]);
        } else if v > w {
            assert(!ends_fence_word(t[w]));
        }
        assert(v == w);
        assert(t.take(v) =~= u.take(w));
    } else {
        if v < m {
            assert(t[v] == u[v]);
        }
        assert(v == m);
        assert(t.take(v) =~= t);
        let x = u.take(w);
        assert forall|i: int| m <= i < x.len() implies is_space(#[trigger] x[i]) by {
            assert(x[i] == u[i]);
        }
        lemma_trim_end_of_more(x, m);
        assert(x.take(m) =~= t);
        lemma_trim_end_of_more(u, m);
    }
    let word = t.take(v);
    assert(trim_start(word) == word) by {
        if word.len() > 0 {
            assert(word[0] == u[0]);
        }
    }
}

/// What comes before a name that white space starts with.
proof fn lemma_trim_start_of_more(lead: Seq<char>, s: Seq<char>)
    requires
        forall|i: int| 0 <= i < lead.len() ==> is_space(#[trigger] lead[i]),
    ensures
        trim_start(lead + s) == trim_start(s),
    decreases lead.len(),
{
    if lead.len() == 0 {
        assert(lead + s =~= s);
    } else {
        let all = lead + s;
        assert(all[0] == lead[0]);
        assert(all.skip(1) =~= lead.skip(1) + s);
        lemma_trim_start_of_more(lead.skip(1), s);
    }
}

/// What follows a text that is more than white space is not trimmed at the start.
proof fn lemma_trim_start_before(s: Seq<char>, rest: Seq<char>)
    requires
        trim_start(s).len() > 0,
    ensures
        trim_start(s + rest) == trim_start(s) + rest,
    decreases s.len(),
{
    let all = s + rest;
    assert(all[0] == s[0]);
    if is_space(s[0]) {
        assert(all.skip(1) =~= s.skip(1) + rest);
        lemma_trim_start_before(s.skip(1), rest);
    }
}

/// White space before the name of a fence's language, and the attributes behind
/// it, do not matter.
pub proof fn law_the_attributes_of_a_fence_do_not_matter(lead: Seq<char>, name: Seq<char>, rest: Seq<char>)
    requires
        forall|i: int| 0 <= i < lead.len() ==> is_space(#[trigger] lead[i]),
        rest.len() > 0,
        ends_fence_word(rest[0]),
        rest[0] != ' ' || trimmed(name).len() > 0,
    ensures
        fence_word(lead + name + rest) == fence_word(name),
{
    let all = lead + name + rest;
    assert(all =~= lead + (name + rest));
    lemma_trim_start_of_more(lead, name + rest);
    lemma_fence_word(all);
    lemma_fence_word(name);
    let u = trim_start(name);
    let v = trim_start(name + rest);
    lemma_word_len(u, 0);
    lemma_word_len(v, 0);
    lemma_trim_end_cuts(u);
    if u.len() > 0 {
        lemma_trim_start_before(name, rest);
        assert(v == u + rest);
        let w = fence_word_len(u, 0);
        let x = fence_word_len(v, 0);
        if w < u.len() {
            assert(v[w] == u[w]);
        } else {
            assert(v[w] == rest[0]);
        }
        if x < w {
            assert(v[x] == u[x]);
        } else if x > w {
            assert(!ends_fence_word(v[w]));
        }
        assert(v.take(x) =~= u.take(w));
    } else {
        lemma_all_space(name);
        lemma_trim_start_of_more(name, rest);
        assert(!is_space(rest[0]));
        assert(v == rest);
        assert(fence_word_len(v, 0) == 0);
        assert(v.take(0) =~= u.take(0));
    }
}

proof fn lemma_all_space(s: Seq<char>)
    requires
        trim_start(s).len() == 0,
    ensures
        forall|i: int| 0 <= i < s.len() ==> is_space(#[trigger] s[i]),
    decreases s.len(),
{
    if s.len() > 0 {
        lemma_all_space(s.skip(1));
        assert forall|i: int| 0 <= i < s.len() implies is_space(#[trigger] s[i]) by {
            if i > 0 {
                assert(s.skip(1)[i - 1] == s[i]);
            }
        }
    }
}

} // verus!
