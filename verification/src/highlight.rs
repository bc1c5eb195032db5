//! Syntax highlighting of `<pre><code class="language-xxx">` blocks: the
//! blocks are found, their text decoded, the language mapped to a syntax
//! definition, and the block replaced by the highlighted HTML or, for
//! unknown languages, by the escaped plain text.
use vstd::prelude::*;
use crate::assets::{lowers_to, lowers_to_exec};
use crate::css_layout::containers::{regex_word_char, is_word_char};
use crate::document::{text_escaped};
use crate::splice::{Span, span_ranges, spans_ordered, spliced, substring};
use crate::text::{
    chars_of, string_of, push_all, push_str, push_range, occurs_at, occurs_at_exec, find_from,
    find_from_exec, lemma_find_from, rfind_before, rfind_exec, replace_all, replace_all_exec,
};
use crate::css_layout::rules::string_views;

verus! {

// ---------------------------------------------------------------------------
// Finding code blocks
// ---------------------------------------------------------------------------

/// End of the run of word characters (`\w`) from `i`.
pub open spec fn word_run_end(s: Seq<char>, i: int) -> int
    decreases s.len() - i,
{
    if 0 <= i < s.len() && regex_word_char(s[i]) {
        word_run_end(s, i + 1)
    } else {
        i
    }
}

/// A code block: where its language name is (if it has one), where its
/// text starts and ends, and where the block ends.
pub struct CodeBlock {
    pub block_start: usize,
    pub lang: Option<(usize, usize)>,
    pub start: usize,
    pub end: usize,
    pub block_end: usize,
}

/// The match of `<pre><code(?: class="language-(\w+)")?>([\s\S]*?)</code></pre>`
/// at `p`: the language range, the text range and the end of the match.
pub open spec fn code_block_at(s: Seq<char>, p: int) -> Option<(int, Option<(int, int)>, int, int, int)> {
    if occurs_at(s, p, "<pre><code"@) {
        let a = p + 10;
        let e = word_run_end(s, a + 17);
        if occurs_at(s, a, " class=\"language-"@) && e > a + 17 && occurs_at(s, e, "\">"@) {
            match find_from(s, "</code></pre>"@, e + 2) {
                Some(q) => Some((p, Some((a + 17, e)), e + 2, q, q + 13)),
                None => None,
            }
        } else if a < s.len() && s[a] == '>' {
            match find_from(s, "</code></pre>"@, a + 1) {
                Some(q) => Some((p, None, a + 1, q, q + 13)),
                None => None,
            }
        } else {
            None
        }
    } else {
        None
    }
}

/// The code blocks from `i` on, in order.
pub open spec fn code_blocks_from(s: Seq<char>, i: int) -> Seq<(int, Option<(int, int)>, int, int, int)>
    decreases s.len() + 1 - i,
{
    match find_from(s, "<pre><code"@, i) {
        Some(p) => {
            proof {
                lemma_find_from(s, "<pre><code"@, i);
                reveal_strlit("<pre><code");
                reveal_strlit("</code></pre>");
                lemma_find_from(s, "</code></pre>"@, p + 11);
                if i >= 0 {
                    lemma_word_run_end(s, p + 27);
                    lemma_find_from(s, "</code></pre>"@, word_run_end(s, p + 27) + 2);
                }
            }
            if i >= 0 {
                match code_block_at(s, p) {
                    Some(b) => if b.4 > i {
                        seq![b] + code_blocks_from(s, b.4)
                    } else {
                        Seq::empty()
                    },
                    None => code_blocks_from(s, p + 1),
                }
            } else {
                Seq::empty()
            }
        },
        None => Seq::empty(),
    }
}

pub open spec fn block_view(b: CodeBlock) -> (int, Option<(int, int)>, int, int, int) {
    (b.block_start as int, match b.lang { Some((x, y)) => Some((x as int, y as int)), None => None }, b.start as int, b.end as int, b.block_end as int)
}

pub open spec fn block_views(v: Seq<CodeBlock>) -> Seq<(int, Option<(int, int)>, int, int, int)> {
    v.map_values(|b: CodeBlock| block_view(b))
}

pub proof fn lemma_word_run_end(s: Seq<char>, i: int)
    requires
        0 <= i,
    ensures
        i <= word_run_end(s, i),
        i <= s.len() ==> word_run_end(s, i) <= s.len(),
    decreases s.len() - i,
{
    if 0 <= i < s.len() && regex_word_char(s[i]) {
        lemma_word_run_end(s, i + 1);
    }
}

fn word_run_end_exec(s: &Vec<char>, i: usize) -> (r: usize)
    requires
        i <= s.len(),
    ensures
        r == word_run_end(s@, i as int),
        i <= r <= s.len(),
{
    let mut j = i;
    while j < s.len() && is_word_char(s[j])
        invariant
            i <= j <= s.len(),
            word_run_end(s@, i as int) == word_run_end(s@, j as int),
        decreases s.len() - j,
    {
        j = j + 1;
    }
    j
}

fn code_block_at_exec(s: &Vec<char>, p: usize, open: &Vec<char>, attr: &Vec<char>, quote_gt: &Vec<char>, close: &Vec<char>) -> (r: Option<CodeBlock>)
    requires
        open@ == "<pre><code"@,
        attr@ == " class=\"language-"@,
        quote_gt@ == "\">"@,
        close@ == "</code></pre>"@,
    ensures
        match r {
            Some(b) => code_block_at(s@, p as int) == Some(block_view(b)),
            None => code_block_at(s@, p as int) is None,
        },
{
    proof {
        reveal_strlit("<pre><code");
        reveal_strlit(" class=\"language-");
        reveal_strlit("\">");
        reveal_strlit("</code></pre>");
    }
    let n = s.len();
    if !occurs_at_exec(s, p, open) {
        return None;
    }
    let a = p + 10;
    if occurs_at_exec(s, a, attr) {
        let e = word_run_end_exec(s, a + 17);
        if e > a + 17 && occurs_at_exec(s, e, quote_gt) {
            match find_from_exec(s, close, e + 2) {
                Some(q) => {
                    proof { lemma_find_from(s@, close@, e + 2); }
                    return Some(CodeBlock { block_start: p, lang: Some((a + 17, e)), start: e + 2, end: q, block_end: q + 13 });
                },
                None => return None,
            }
        }
    } else {
        proof { lemma_word_run_end(s@, a + 17); }
    }
    if a < n && s[a] == '>' {
        match find_from_exec(s, close, a + 1) {
            Some(q) => {
                proof { lemma_find_from(s@, close@, a + 1); }
                Some(CodeBlock { block_start: p, lang: None, start: a + 1, end: q, block_end: q + 13 })
            },
            None => None,
        }
    } else {
        None
    }
}

/// The code blocks of a page, in order.
pub fn code_blocks(s: &Vec<char>) -> (r: Vec<CodeBlock>)
    ensures
        block_views(r@) == code_blocks_from(s@, 0),
{
    let open = chars_of("<pre><code");
    let attr = chars_of(" class=\"language-");
    let quote_gt = chars_of("\">");
    let close = chars_of("</code></pre>");
    proof {
        reveal_strlit("<pre><code");
        reveal_strlit("</code></pre>");
    }
    let n = s.len();
    let mut out: Vec<CodeBlock> = Vec::new();
    let mut i: usize = 0;
    while i <= n
        invariant
            n == s@.len(),
            open@ == "<pre><code"@,
            open@.len() == 10,
            attr@ == " class=\"language-"@,
            quote_gt@ == "\">"@,
            close@ == "</code></pre>"@,
            close@.len() == 13,
            block_views(out@) + code_blocks_from(s@, i as int) == code_blocks_from(s@, 0),
        ensures
            block_views(out@) == code_blocks_from(s@, 0),
        decreases n + 1 - i,
    {
        let p = match find_from_exec(s, &open, i) {
            Some(p) => p,
            None => break,
        };
        proof {
            lemma_find_from(s@, open@, i as int);
            lemma_find_from(s@, close@, p + 11);
            lemma_word_run_end(s@, p + 27);
            lemma_find_from(s@, close@, word_run_end(s@, p + 27) + 2);
        }
        match code_block_at_exec(s, p, &open, &attr, &quote_gt, &close) {
            Some(b) => {
                let next = b.block_end;
                let ghost bv = block_view(b);
                let ghost before = out@;
                out.push(b);
                proof {
                    assert(block_views(out@) =~= block_views(before).push(bv));
                    assert(block_views(out@) + code_blocks_from(s@, next as int) =~= block_views(before)
                        + code_blocks_from(s@, i as int));
                }
                i = next;
            },
            None => {
                i = p + 1;
            },
        }
    }
    out
}

// ---------------------------------------------------------------------------
// Text
// ---------------------------------------------------------------------------

/// The code text of a block with its entities decoded, one entity after
/// the other: `&lt;`, `&gt;`, `&amp;`, `&quot;`, `&#39;`.
pub open spec fn html_decoded(s: Seq<char>) -> Seq<char> {
    replace_all(replace_all(replace_all(replace_all(replace_all(s, "&lt;"@, "<"@), "&gt;"@, ">"@), "&amp;"@, "&"@),
        "&quot;"@, "\""@), "&#39;"@, "'"@)
}

fn replace_str(v: &Vec<char>, from: &str, to: &str) -> (r: Vec<char>)
    ensures
        r@ == replace_all(v@, from@, to@),
{
    replace_all_exec(v, &chars_of(from), &chars_of(to))
}

pub fn html_decode(s: &str) -> (r: String)
    ensures
        r@ == html_decoded(s@),
{
    let v = chars_of(s);
    let a = replace_str(&v, "&lt;", "<");
    let b = replace_str(&a, "&gt;", ">");
    let c = replace_str(&b, "&amp;", "&");
    let d = replace_str(&c, "&quot;", "\"");
    string_of(&replace_str(&d, "&#39;", "'"))
}

/// Code text with `&`, `<` and `>` escaped.
pub fn html_escape(s: &str) -> (r: String)
    ensures
        r@ == text_escaped(s@),
{
    let v = chars_of(s);
    let mut out: Vec<char> = Vec::new();
    crate::document::push_text_escaped(&mut out, &v);
    string_of(&out)
}

// ---------------------------------------------------------------------------
// Languages
// ---------------------------------------------------------------------------

/// `lang`, lower-cased, is the ASCII word `key`.
pub open spec fn lower_is(lang: Seq<char>, key: Seq<char>) -> bool {
    lang.len() == key.len() && forall|i: int| 0 <= i < key.len() ==> lowers_to(#[trigger] lang[i], key[i])
}

/// The syntax definition for a language name of a code block, by its
/// lower-cased name or abbreviation.
pub open spec fn syntax_for(lang: Seq<char>) -> Option<Seq<char>> {
    if lower_is(lang, "js"@) || lower_is(lang, "javascript"@) { Some("JavaScript"@) }
    else if lower_is(lang, "ts"@) || lower_is(lang, "typescript"@) { Some("TypeScript"@) }
    else if lower_is(lang, "py"@) || lower_is(lang, "python"@) { Some("Python"@) }
    else if lower_is(lang, "rs"@) || lower_is(lang, "rust"@) { Some("Rust"@) }
    else if lower_is(lang, "go"@) || lower_is(lang, "golang"@) { Some("Go"@) }
    else if lower_is(lang, "c"@) { Some("C"@) }
    else if lower_is(lang, "cpp"@) || lower_is(lang, "c++"@) { Some("C++"@) }
    else if lower_is(lang, "java"@) { Some("Java"@) }
    else if lower_is(lang, "sh"@) || lower_is(lang, "bash"@) || lower_is(lang, "shell"@) { Some("Bash"@) }
    else if lower_is(lang, "sql"@) { Some("SQL"@) }
    else if lower_is(lang, "json"@) { Some("JSON"@) }
    else if lower_is(lang, "yaml"@) || lower_is(lang, "yml"@) { Some("YAML"@) }
    else if lower_is(lang, "toml"@) { Some("TOML"@) }
    else if lower_is(lang, "html"@) { Some("HTML"@) }
    else if lower_is(lang, "css"@) { Some("CSS"@) }
    else if lower_is(lang, "md"@) || lower_is(lang, "markdown"@) { Some("Markdown"@) }
    else if lower_is(lang, "rb"@) || lower_is(lang, "ruby"@) { Some("Ruby"@) }
    else if lower_is(lang, "php"@) { Some("PHP"@) }
    else if lower_is(lang, "swift"@) { Some("Swift"@) }
    else if lower_is(lang, "kt"@) || lower_is(lang, "kotlin"@) { Some("Kotlin"@) }
    else if lower_is(lang, "scala"@) { Some("Scala"@) }
    else if lower_is(lang, "r"@) { Some("R"@) }
    else if lower_is(lang, "lua"@) { Some("Lua"@) }
    else if lower_is(lang, "haskell"@) || lower_is(lang, "hs"@) { Some("Haskell"@) }
    else if lower_is(lang, "dart"@) { Some("Dart"@) }
    else if lower_is(lang, "elixir"@) || lower_is(lang, "ex"@) { Some("Elixir"@) }
    else if lower_is(lang, "xml"@) { Some("XML"@) }
    else if lower_is(lang, "dockerfile"@) || lower_is(lang, "docker"@) { Some("Dockerfile"@) }
    else if lower_is(lang, "makefile"@) || lower_is(lang, "make"@) { Some("Makefile"@) }
    else if lower_is(lang, "nginx"@) { Some("Nginx"@) }
    else if lower_is(lang, "diff"@) || lower_is(lang, "patch"@) { Some("Diff"@) }
    else { None }
}

fn lower_is_exec(lang: &Vec<char>, key: &str) -> (b: bool)
    ensures
        b == lower_is(lang@, key@),
{
    let k = chars_of(key);
    if lang.len() != k.len() {
        return false;
    }
    let mut i: usize = 0;
    while i < k.len()
        invariant
            i <= k.len() == lang.len(),
            k@ == key@,
            forall|j: int| 0 <= j < i ==> lowers_to(#[trigger] lang@[j], k@[j]),
        decreases k.len() - i,
    {
        if !lowers_to_exec(lang[i], k[i]) {
            return false;
        }
        i = i + 1;
    }
    true
}

/// The syntax definition name for a language name, if it is known.
pub fn find_syntax(lang: &str) -> (r: Option<&'static str>)
    ensures
        match r {
            Some(n) => syntax_for(lang@) == Some(n@),
            None => syntax_for(lang@) is None,
        },
{
    let l = chars_of(lang);
    if lower_is_exec(&l, "js") || lower_is_exec(&l, "javascript") { Some("JavaScript") }
    else if lower_is_exec(&l, "ts") || lower_is_exec(&l, "typescript") { Some("TypeScript") }
    else if lower_is_exec(&l, "py") || lower_is_exec(&l, "python") { Some("Python") }
    else if lower_is_exec(&l, "rs") || lower_is_exec(&l, "rust") { Some("Rust") }
    else if lower_is_exec(&l, "go") || lower_is_exec(&l, "golang") { Some("Go") }
    else if lower_is_exec(&l, "c") { Some("C") }
    else if lower_is_exec(&l, "cpp") || lower_is_exec(&l, "c++") { Some("C++") }
    else if lower_is_exec(&l, "java") { Some("Java") }
    else if lower_is_exec(&l, "sh") || lower_is_exec(&l, "bash") || lower_is_exec(&l, "shell") { Some("Bash") }
    else if lower_is_exec(&l, "sql") { Some("SQL") }
    else if lower_is_exec(&l, "json") { Some("JSON") }
    else if lower_is_exec(&l, "yaml") || lower_is_exec(&l, "yml") { Some("YAML") }
    else if lower_is_exec(&l, "toml") { Some("TOML") }
    else if lower_is_exec(&l, "html") { Some("HTML") }
    else if lower_is_exec(&l, "css") { Some("CSS") }
    else if lower_is_exec(&l, "md") || lower_is_exec(&l, "markdown") { Some("Markdown") }
    else if lower_is_exec(&l, "rb") || lower_is_exec(&l, "ruby") { Some("Ruby") }
    else if lower_is_exec(&l, "php") { Some("PHP") }
    else if lower_is_exec(&l, "swift") { Some("Swift") }
    else if lower_is_exec(&l, "kt") || lower_is_exec(&l, "kotlin") { Some("Kotlin") }
    else if lower_is_exec(&l, "scala") { Some("Scala") }
    else if lower_is_exec(&l, "r") { Some("R") }
    else if lower_is_exec(&l, "lua") { Some("Lua") }
    else if lower_is_exec(&l, "haskell") || lower_is_exec(&l, "hs") { Some("Haskell") }
    else if lower_is_exec(&l, "dart") { Some("Dart") }
    else if lower_is_exec(&l, "elixir") || lower_is_exec(&l, "ex") { Some("Elixir") }
    else if lower_is_exec(&l, "xml") { Some("XML") }
    else if lower_is_exec(&l, "dockerfile") || lower_is_exec(&l, "docker") { Some("Dockerfile") }
    else if lower_is_exec(&l, "makefile") || lower_is_exec(&l, "make") { Some("Makefile") }
    else if lower_is_exec(&l, "nginx") { Some("Nginx") }
    else if lower_is_exec(&l, "diff") || lower_is_exec(&l, "patch") { Some("Diff") }
    else { None }
}

// ---------------------------------------------------------------------------
// Highlighting
// ---------------------------------------------------------------------------

/// The HTML that syntect's `highlighted_html_for_string` makes of a code
/// text with the named syntax of its default set and the
/// `base16-ocean.dark` theme; `None` when the set has no such syntax or
/// highlighting fails.
pub uninterp spec fn syntect_html(syntax: Seq<char>, code: Seq<char>) -> Option<Seq<char>>;

/// Highlights `code` with syntect: the default syntax set (newline
/// variant), the syntax found by name, the `base16-ocean.dark` theme of
/// the default theme set. Claimed: the result is the named
/// `syntect_html` of the syntax name and the code.
#[verifier::external_body]
fn syntect_highlight(syntax: &str, code: &str) -> (r: Option<String>)
    ensures
        match r {
            Some(h) => syntect_html(syntax@, code@) == Some(h@),
            None => syntect_html(syntax@, code@) is None,
        },
{
    let ss = syntect::parsing::SyntaxSet::load_defaults_newlines();
    let ts = syntect::highlighting::ThemeSet::load_defaults();
    let syn = ss.find_syntax_by_name(syntax)?;
    syntect::html::highlighted_html_for_string(code, &ss, syn, &ts.themes["base16-ocean.dark"]).ok()
}

/// The inside of the `<pre>` element of highlighted HTML: from after the
/// first `<pre ...>` tag to the last `</pre>`; the whole text when either
/// is missing. `None` when the last `</pre>` comes before the end of that
/// tag (the text cannot be cut there).
pub open spec fn pre_body(h: Seq<char>) -> Option<Seq<char>> {
    match find_from(h, "<pre"@, 0) {
        Some(st) => match find_from(h, ">"@, st) {
            Some(g) => match rfind_before(h, "</pre>"@, h.len() as int) {
                Some(e) => if g + 1 <= e { Some(h.subrange(g + 1, e)) } else { None },
                None => Some(h),
            },
            None => Some(h),
        },
        None => Some(h),
    }
}

proof fn lemma_rfind_bound(s: Seq<char>, p: Seq<char>, i: int)
    ensures
        rfind_before(s, p, i) matches Some(j) ==> 0 <= j < i && occurs_at(s, j, p),
    decreases i,
{
    if i > 0 && !occurs_at(s, i - 1, p) {
        lemma_rfind_bound(s, p, i - 1);
    }
}

pub fn extract_pre_body(h: &str) -> (r: Option<String>)
    ensures
        match r {
            Some(b) => pre_body(h@) == Some(b@),
            None => pre_body(h@) is None,
        },
{
    let v = chars_of(h);
    let n = v.len();
    let pre = chars_of("<pre");
    match find_from_exec(&v, &pre, 0) {
        Some(st) => {
            proof { lemma_find_from(v@, pre@, 0); }
            let gt = chars_of(">");
            match find_from_exec(&v, &gt, st) {
                Some(g) => {
                    proof {
                        lemma_find_from(v@, gt@, st as int);
                        reveal_strlit(">");
                        assert(g < n);
                    }
                    let close = chars_of("</pre>");
                    match rfind_exec(&v, &close) {
                        Some(e) => {
                            proof { lemma_rfind_bound(v@, close@, v@.len() as int); }
                            if g + 1 <= e {
                                let mut out: Vec<char> = Vec::new();
                                push_range(&mut out, &v, g + 1, e);
                                Some(string_of(&out))
                            } else {
                                None
                            }
                        },
                        None => Some(string_of(&v)),
                    }
                },
                None => Some(string_of(&v)),
            }
        },
        None => Some(string_of(&v)),
    }
}

/// The replacement of a code block: the highlighted HTML in a styled
/// `<pre>` when the language has a syntax and syntect highlighted it, the
/// escaped text in a plain `<pre>` otherwise; `None` when the highlighted
/// HTML cannot be cut.
pub open spec fn block_html(syntax: Option<Seq<char>>, highlighted: Option<Seq<char>>, code: Seq<char>) -> Option<Seq<char>> {
    match (syntax, highlighted) {
        (Some(_), Some(h)) => match pre_body(h) {
            Some(inner) => Some("<pre style=\"background:#2b303b;color:#c0c5ce;padding:8pt;overflow-x:auto;font-size:8pt;line-height:1.4\"><code>"@
                + inner + "</code></pre>"@),
            None => None,
        },
        _ => Some("<pre><code>"@ + text_escaped(code) + "</code></pre>"@),
    }
}

/// The replacement of a code block, from the syntax found for its language
/// and what syntect made of its text.
pub fn render_code_block(syntax: Option<&str>, highlighted: Option<&str>, code: &str) -> (r: Option<String>)
    ensures
        match r {
            Some(x) => block_html(crate::document::opt_str_view(syntax), crate::document::opt_str_view(highlighted), code@) == Some(x@),
            None => block_html(crate::document::opt_str_view(syntax), crate::document::opt_str_view(highlighted), code@) is None,
        },
{
    match (syntax, highlighted) {
        (Some(_), Some(h)) => match extract_pre_body(h) {
            Some(inner) => {
                let mut out: Vec<char> = Vec::new();
                push_str(&mut out, "<pre style=\"background:#2b303b;color:#c0c5ce;padding:8pt;overflow-x:auto;font-size:8pt;line-height:1.4\"><code>");
                push_str(&mut out, inner.as_str());
                push_str(&mut out, "</code></pre>");
                Some(string_of(&out))
            },
            None => None,
        },
        _ => {
            let mut out: Vec<char> = Vec::new();
            push_str(&mut out, "<pre><code>");
            let c = chars_of(code);
            crate::document::push_text_escaped(&mut out, &c);
            push_str(&mut out, "</code></pre>");
            Some(string_of(&out))
        },
    }
}

/// The language name of a block, if it has one.
pub open spec fn block_lang(s: Seq<char>, b: (int, Option<(int, int)>, int, int, int)) -> Option<Seq<char>> {
    match b.1 {
        Some((x, y)) => Some(s.subrange(x, y)),
        None => None,
    }
}

/// The syntax for a block's language.
pub open spec fn block_syntax(s: Seq<char>, b: (int, Option<(int, int)>, int, int, int)) -> Option<Seq<char>> {
    match block_lang(s, b) {
        Some(l) => syntax_for(l),
        None => None,
    }
}

/// The replacement of one block of the page.
pub open spec fn highlighted_block(s: Seq<char>, b: (int, Option<(int, int)>, int, int, int)) -> Option<Seq<char>> {
    let code = html_decoded(s.subrange(b.2, b.3));
    let syn = block_syntax(s, b);
    let hl = match syn {
        Some(n) => syntect_html(n, code),
        None => None,
    };
    block_html(syn, hl, code)
}

/// The replacements of a list of blocks, when every one has one.
pub open spec fn block_replacements(s: Seq<char>, bs: Seq<(int, Option<(int, int)>, int, int, int)>) -> Option<Seq<Seq<char>>>
    decreases bs.len(),
{
    if bs.len() == 0 {
        Some(Seq::empty())
    } else {
        match (block_replacements(s, bs.drop_last()), highlighted_block(s, bs.last())) {
            (Some(rs), Some(r)) => Some(rs.push(r)),
            _ => None,
        }
    }
}

/// The ranges the blocks cover.
pub open spec fn block_ranges(bs: Seq<(int, Option<(int, int)>, int, int, int)>) -> Seq<(int, int)> {
    bs.map_values(|b: (int, Option<(int, int)>, int, int, int)| (b.0, b.4))
}


/// A block's parts lie in order within a text of length `len`.
pub open spec fn block_shape(b: (int, Option<(int, int)>, int, int, int), len: int) -> bool {
    &&& 0 <= b.0
    &&& b.0 + 10 < b.2 <= b.3
    &&& b.3 + 13 == b.4 <= len
    &&& match b.1 {
        Some((x, y)) => b.0 + 27 == x && x < y && y + 2 == b.2,
        None => b.0 + 11 == b.2,
    }
}

/// Once a block has no replacement, no longer prefix of the list has one.
proof fn lemma_replacements_none(s: Seq<char>, bs: Seq<(int, Option<(int, int)>, int, int, int)>, i: int)
    requires
        0 <= i < bs.len(),
        highlighted_block(s, bs[i]) is None,
    ensures
        block_replacements(s, bs) is None,
    decreases bs.len(),
{
    if i < bs.len() - 1 {
        lemma_replacements_none(s, bs.drop_last(), i);
    }
}

/// The code blocks lie in order within the text, from `i` on.
proof fn lemma_code_blocks_ordered(s: Seq<char>, i: int)
    requires
        0 <= i,
    ensures
        spans_ordered(block_ranges(code_blocks_from(s, i)), s.len() as int),
        forall|k: int| 0 <= k < code_blocks_from(s, i).len() ==> i <= (#[trigger] code_blocks_from(s, i)[k]).0,
        forall|k: int| 0 <= k < code_blocks_from(s, i).len() ==> block_shape(#[trigger] code_blocks_from(s, i)[k], s.len() as int),
    decreases s.len() + 1 - i,
{
    reveal_strlit("<pre><code");
    reveal_strlit("</code></pre>");
    let r = code_blocks_from(s, i);
    lemma_find_from(s, "<pre><code"@, i);
    if let Some(p) = find_from(s, "<pre><code"@, i) {
        lemma_find_from(s, "</code></pre>"@, p + 11);
        lemma_word_run_end(s, p + 27);
        lemma_find_from(s, "</code></pre>"@, word_run_end(s, p + 27) + 2);
        match code_block_at(s, p) {
            Some(b) => {
                lemma_code_blocks_ordered(s, b.4);
                let t = code_blocks_from(s, b.4);
                assert(r == seq![b] + t);
                assert forall|k: int| 0 < k < r.len() implies (#[trigger] block_ranges(r)[k - 1]).1 <= block_ranges(r)[k].0 by {
                    assert(r[k] == t[k - 1]);
                    assert(block_ranges(r)[k] == (r[k].0, r[k].4));
                    assert(block_ranges(r)[k - 1] == (r[k - 1].0, r[k - 1].4));
                    assert(b.4 <= t[k - 1].0);
                    if k > 1 {
                        assert(r[k - 1] == t[k - 2]);
                        assert(block_ranges(t)[k - 2] == (t[k - 2].0, t[k - 2].4));
                        assert(block_ranges(t)[k - 1] == (t[k - 1].0, t[k - 1].4));
                        assert(block_ranges(t)[k - 2].1 <= block_ranges(t)[k - 1].0);
                    }
                }
                assert forall|k: int| 0 <= k < r.len() implies 0 <= (#[trigger] block_ranges(r)[k]).0 <= block_ranges(r)[k].1 <= s.len() by {
                    if k > 0 {
                        assert(r[k] == t[k - 1]);
                    }
                }
                assert forall|k: int| 0 <= k < r.len() implies block_shape(#[trigger] r[k], s.len() as int) by {
                    if k > 0 {
                        assert(r[k] == t[k - 1]);
                    }
                }
            },
            None => {
                lemma_code_blocks_ordered(s, p + 1);
            },
        }
    }
}

/// The page with its code blocks highlighted, and how many there were;
/// `None` when the highlighted HTML of a block cannot be cut.
pub open spec fn highlighted_page(s: Seq<char>) -> Option<(Seq<char>, nat)> {
    let bs = code_blocks_from(s, 0);
    match block_replacements(s, bs) {
        Some(reps) => Some((spliced(s, block_ranges(bs), reps, 0), bs.len())),
        None => None,
    }
}

/// Highlights the code blocks of the page and returns how many there were.
/// When the highlighted HTML of a block cannot be cut after its `<pre>`
/// tag, the page is left as it was and `None` is returned.
pub fn highlight_code_blocks(html: &mut String) -> (r: Option<usize>)
    ensures
        match highlighted_page(old(html)@) {
            Some((t, n)) => r == Some(n as usize) && final(html)@ == t,
            None => r is None && final(html)@ == old(html)@,
        },
{
    let v = chars_of(html.as_str());
    let blocks = code_blocks(&v);
    proof { lemma_code_blocks_ordered(v@, 0); }
    let ghost bs = code_blocks_from(v@, 0);
    let mut spans: Vec<Span> = Vec::new();
    let mut reps: Vec<String> = Vec::new();
    let mut k: usize = 0;
    assert(bs.take(0) == Seq::<(int, Option<(int, int)>, int, int, int)>::empty());
    while k < blocks.len()
        invariant
            k <= blocks.len(),
            v@ == old(html)@,
            *html == *old(html),
            block_views(blocks@) == bs,
            bs == code_blocks_from(v@, 0),
            spans_ordered(block_ranges(bs), v@.len() as int),
            forall|j: int| 0 <= j < bs.len() ==> block_shape(#[trigger] bs[j], v@.len() as int),
            spans@.len() == k,
            reps@.len() == k,
            span_ranges(spans@) == block_ranges(bs).take(k as int),
            block_replacements(v@, bs.take(k as int)) == Some(string_views(reps@)),
        decreases blocks.len() - k,
    {
        let b = &blocks[k];
        let ghost bv = bs[k as int];
        assert(block_view(*b) == bv);
        assert(block_shape(bv, v@.len() as int));
        proof {
            assert(bs.take(k + 1).drop_last() == bs.take(k as int));
            assert(bs.take(k + 1).last() == bv);
        }
        let raw = substring(&v, b.start, b.end);
        let code = html_decode(raw.as_str());
        let syntax: Option<&'static str> = match b.lang {
            Some((x, y)) => {
                let l = substring(&v, x, y);
                find_syntax(l.as_str())
            },
            None => None,
        };
        let hl: Option<String> = match syntax {
            Some(n) => syntect_highlight(n, code.as_str()),
            None => None,
        };
        let hl_str: Option<&str> = match &hl {
            Some(h) => Some(h.as_str()),
            None => None,
        };
        let rep = match render_code_block(syntax, hl_str, code.as_str()) {
            Some(r) => r,
            None => {
                proof { lemma_replacements_none(v@, bs, k as int); }
                return None;
            },
        };
        let ghost before_spans = spans@;
        let ghost before_reps = reps@;
        spans.push(Span { start: b.block_start, end: b.block_end, inner: String::new() });
        reps.push(rep);
        proof {
            assert(span_ranges(spans@) =~= span_ranges(before_spans).push((bv.0, bv.4)));
            assert(block_ranges(bs).take(k + 1) =~= block_ranges(bs).take(k as int).push((bv.0, bv.4)));
            assert(string_views(reps@) =~= string_views(before_reps).push(rep@));
        }
        k = k + 1;
    }
    proof {
        assert(bs.take(bs.len() as int) == bs);
        assert(block_ranges(bs).take(bs.len() as int) == block_ranges(bs));
    }
    let out = crate::splice::splice_spans(html.as_str(), spans.as_slice(), reps.as_slice());
    *html = out;
    Some(blocks.len())
}


proof fn lemma_language_js(lang: Seq<char>)
    requires
        lower_is(lang, "js"@),
    ensures
        syntax_for(lang) == Some("JavaScript"@),
{
    reveal_strlit("js");
}

proof fn lemma_language_javascript(lang: Seq<char>)
    requires
        lower_is(lang, "javascript"@),
    ensures
        syntax_for(lang) == Some("JavaScript"@),
{
    reveal_strlit("javascript");
    reveal_strlit("js");
}

proof fn lemma_language_ts(lang: Seq<char>)
    requires
        lower_is(lang, "ts"@),
    ensures
        syntax_for(lang) == Some("TypeScript"@),
{
    reveal_strlit("ts");
    reveal_strlit("js");
    assert(!lower_is(lang, "js"@)) by {
        if lower_is(lang, "js"@) {
            assert(lowers_to(lang[0], "ts"@[0]));
            assert(lowers_to(lang[0], "js"@[0]));
        }
    }
    reveal_strlit("javascript");
}

proof fn lemma_language_typescript(lang: Seq<char>)
    requires
        lower_is(lang, "typescript"@),
    ensures
        syntax_for(lang) == Some("TypeScript"@),
{
    reveal_strlit("typescript");
    reveal_strlit("js");
    reveal_strlit("javascript");
    assert(!lower_is(lang, "javascript"@)) by {
        if lower_is(lang, "javascript"@) {
            assert(lowers_to(lang[0], "typescript"@[0]));
            assert(lowers_to(lang[0], "javascript"@[0]));
        }
    }
    reveal_strlit("ts");
}

proof fn lemma_language_py(lang: Seq<char>)
    requires
        lower_is(lang, "py"@),
    ensures
        syntax_for(lang) == Some("Python"@),
{
    reveal_strlit("py");
    reveal_strlit("js");
    assert(!lower_is(lang, "js"@)) by {
        if lower_is(lang, "js"@) {
            assert(lowers_to(lang[0], "py"@[0]));
            assert(lowers_to(lang[0], "js"@[0]));
        }
    }
    reveal_strlit("javascript");
    reveal_strlit("ts");
    assert(!lower_is(lang, "ts"@)) by {
        if lower_is(lang, "ts"@) {
            assert(lowers_to(lang[0], "py"@[0]));
            assert(lowers_to(lang[0], "ts"@[0]));
        }
    }
    reveal_strlit("typescript");
}

proof fn lemma_language_python(lang: Seq<char>)
    requires
        lower_is(lang, "python"@),
    ensures
        syntax_for(lang) == Some("Python"@),
{
    reveal_strlit("python");
    reveal_strlit("js");
    reveal_strlit("javascript");
    reveal_strlit("ts");
    reveal_strlit("typescript");
    reveal_strlit("py");
}

proof fn lemma_language_rs(lang: Seq<char>)
    requires
        lower_is(lang, "rs"@),
    ensures
        syntax_for(lang) == Some("Rust"@),
{
    reveal_strlit("rs");
    reveal_strlit("js");
    assert(!lower_is(lang, "js"@)) by {
        if lower_is(lang, "js"@) {
            assert(lowers_to(lang[0], "rs"@[0]));
            assert(lowers_to(lang[0], "js"@[0]));
        }
    }
    reveal_strlit("javascript");
    reveal_strlit("ts");
    assert(!lower_is(lang, "ts"@)) by {
        if lower_is(lang, "ts"@) {
            assert(lowers_to(lang[0], "rs"@[0]));
            assert(lowers_to(lang[0], "ts"@[0]));
        }
    }
    reveal_strlit("typescript");
    reveal_strlit("py");
    assert(!lower_is(lang, "py"@)) by {
        if lower_is(lang, "py"@) {
            assert(lowers_to(lang[0], "rs"@[0]));
            assert(lowers_to(lang[0], "py"@[0]));
        }
    }
    reveal_strlit("python");
}

proof fn lemma_language_rust(lang: Seq<char>)
    requires
        lower_is(lang, "rust"@),
    ensures
        syntax_for(lang) == Some("Rust"@),
{
    reveal_strlit("rust");
    reveal_strlit("js");
    reveal_strlit("javascript");
    reveal_strlit("ts");
    reveal_strlit("typescript");
    reveal_strlit("py");
    reveal_strlit("python");
    reveal_strlit("rs");
}

proof fn lemma_language_go(lang: Seq<char>)
    requires
        lower_is(lang, "go"@),
    ensures
        syntax_for(lang) == Some("Go"@),
{
    reveal_strlit("go");
    reveal_strlit("js");
    assert(!lower_is(lang, "js"@)) by {
        if lower_is(lang, "js"@) {
            assert(lowers_to(lang[0], "go"@[0]));
            assert(lowers_to(lang[0], "js"@[0]));
        }
    }
    reveal_strlit("javascript");
    reveal_strlit("ts");
    assert(!lower_is(lang, "ts"@)) by {
        if lower_is(lang, "ts"@) {
            assert(lowers_to(lang[0], "go"@[0]));
            assert(lowers_to(lang[0], "ts"@[0]));
        }
    }
    reveal_strlit("typescript");
    reveal_strlit("py");
    assert(!lower_is(lang, "py"@)) by {
        if lower_is(lang, "py"@) {
            assert(lowers_to(lang[0], "go"@[0]));
            assert(lowers_to(lang[0], "py"@[0]));
        }
    }
    reveal_strlit("python");
    reveal_strlit("rs");
    assert(!lower_is(lang, "rs"@)) by {
        if lower_is(lang, "rs"@) {
            assert(lowers_to(lang[0], "go"@[0]));
            assert(lowers_to(lang[0], "rs"@[0]));
        }
    }
    reveal_strlit("rust");
}

proof fn lemma_language_golang(lang: Seq<char>)
    requires
        lower_is(lang, "golang"@),
    ensures
        syntax_for(lang) == Some("Go"@),
{
    reveal_strlit("golang");
    reveal_strlit("js");
    reveal_strlit("javascript");
    reveal_strlit("ts");
    reveal_strlit("typescript");
    reveal_strlit("py");
    reveal_strlit("python");
    assert(!lower_is(lang, "python"@)) by {
        if lower_is(lang, "python"@) {
            assert(lowers_to(lang[0], "golang"@[0]));
            assert(lowers_to(lang[0], "python"@[0]));
        }
    }
    reveal_strlit("rs");
    reveal_strlit("rust");
    reveal_strlit("go");
}

proof fn lemma_language_c(lang: Seq<char>)
    requires
        lower_is(lang, "c"@),
    ensures
        syntax_for(lang) == Some("C"@),
{
    reveal_strlit("c");
    reveal_strlit("js");
    reveal_strlit("javascript");
    reveal_strlit("ts");
    reveal_strlit("typescript");
    reveal_strlit("py");
    reveal_strlit("python");
    reveal_strlit("rs");
    reveal_strlit("rust");
    reveal_strlit("go");
    reveal_strlit("golang");
}

proof fn lemma_language_cpp(lang: Seq<char>)
    requires
        lower_is(lang, "cpp"@),
    ensures
        syntax_for(lang) == Some("C++"@),
{
    reveal_strlit("cpp");
    reveal_strlit("js");
    reveal_strlit("javascript");
    reveal_strlit("ts");
    reveal_strlit("typescript");
    reveal_strlit("py");
    reveal_strlit("python");
    reveal_strlit("rs");
    reveal_strlit("rust");
    reveal_strlit("go");
    reveal_strlit("golang");
    reveal_strlit("c");
}

proof fn lemma_language_cplusplus(lang: Seq<char>)
    requires
        lower_is(lang, "c++"@),
    ensures
        syntax_for(lang) == Some("C++"@),
{
    reveal_strlit("c++");
    reveal_strlit("js");
    reveal_strlit("javascript");
    reveal_strlit("ts");
    reveal_strlit("typescript");
    reveal_strlit("py");
    reveal_strlit("python");
    reveal_strlit("rs");
    reveal_strlit("rust");
    reveal_strlit("go");
    reveal_strlit("golang");
    reveal_strlit("c");
    reveal_strlit("cpp");
    assert(!lower_is(lang, "cpp"@)) by {
        if lower_is(lang, "cpp"@) {
            assert(lowers_to(lang[1], "c++"@[1]));
            assert(lowers_to(lang[1], "cpp"@[1]));
        }
    }
}

proof fn lemma_language_java(lang: Seq<char>)
    requires
        lower_is(lang, "java"@),
    ensures
        syntax_for(lang) == Some("Java"@),
{
    reveal_strlit("java");
    reveal_strlit("js");
    reveal_strlit("javascript");
    reveal_strlit("ts");
    reveal_strlit("typescript");
    reveal_strlit("py");
    reveal_strlit("python");
    reveal_strlit("rs");
    reveal_strlit("rust");
    assert(!lower_is(lang, "rust"@)) by {
        if lower_is(lang, "rust"@) {
            assert(lowers_to(lang[0], "java"@[0]));
            assert(lowers_to(lang[0], "rust"@[0]));
        }
    }
    reveal_strlit("go");
    reveal_strlit("golang");
    reveal_strlit("c");
    reveal_strlit("cpp");
    reveal_strlit("c++");
}

proof fn lemma_language_sh(lang: Seq<char>)
    requires
        lower_is(lang, "sh"@),
    ensures
        syntax_for(lang) == Some("Bash"@),
{
    reveal_strlit("sh");
    reveal_strlit("js");
    assert(!lower_is(lang, "js"@)) by {
        if lower_is(lang, "js"@) {
            assert(lowers_to(lang[0], "sh"@[0]));
            assert(lowers_to(lang[0], "js"@[0]));
        }
    }
    reveal_strlit("javascript");
    reveal_strlit("ts");
    assert(!lower_is(lang, "ts"@)) by {
        if lower_is(lang, "ts"@) {
            assert(lowers_to(lang[0], "sh"@[0]));
            assert(lowers_to(lang[0], "ts"@[0]));
        }
    }
    reveal_strlit("typescript");
    reveal_strlit("py");
    assert(!lower_is(lang, "py"@)) by {
        if lower_is(lang, "py"@) {
            assert(lowers_to(lang[0], "sh"@[0]));
            assert(lowers_to(lang[0], "py"@[0]));
        }
    }
    reveal_strlit("python");
    reveal_strlit("rs");
    assert(!lower_is(lang, "rs"@)) by {
        if lower_is(lang, "rs"@) {
            assert(lowers_to(lang[0], "sh"@[0]));
            assert(lowers_to(lang[0], "rs"@[0]));
        }
    }
    reveal_strlit("rust");
    reveal_strlit("go");
    assert(!lower_is(lang, "go"@)) by {
        if lower_is(lang, "go"@) {
            assert(lowers_to(lang[0], "sh"@[0]));
            assert(lowers_to(lang[0], "go"@[0]));
        }
    }
    reveal_strlit("golang");
    reveal_strlit("c");
    reveal_strlit("cpp");
    reveal_strlit("c++");
    reveal_strlit("java");
}

proof fn lemma_language_bash(lang: Seq<char>)
    requires
        lower_is(lang, "bash"@),
    ensures
        syntax_for(lang) == Some("Bash"@),
{
    reveal_strlit("bash");
    reveal_strlit("js");
    reveal_strlit("javascript");
    reveal_strlit("ts");
    reveal_strlit("typescript");
    reveal_strlit("py");
    reveal_strlit("python");
    reveal_strlit("rs");
    reveal_strlit("rust");
    assert(!lower_is(lang, "rust"@)) by {
        if lower_is(lang, "rust"@) {
            assert(lowers_to(lang[0], "bash"@[0]));
            assert(lowers_to(lang[0], "rust"@[0]));
        }
    }
    reveal_strlit("go");
    reveal_strlit("golang");
    reveal_strlit("c");
    reveal_strlit("cpp");
    reveal_strlit("c++");
    reveal_strlit("java");
    assert(!lower_is(lang, "java"@)) by {
        if lower_is(lang, "java"@) {
            assert(lowers_to(lang[0], "bash"@[0]));
            assert(lowers_to(lang[0], "java"@[0]));
        }
    }
    reveal_strlit("sh");
}

proof fn lemma_language_shell(lang: Seq<char>)
    requires
        lower_is(lang, "shell"@),
    ensures
        syntax_for(lang) == Some("Bash"@),
{
    reveal_strlit("shell");
    reveal_strlit("js");
    reveal_strlit("javascript");
    reveal_strlit("ts");
    reveal_strlit("typescript");
    reveal_strlit("py");
    reveal_strlit("python");
    reveal_strlit("rs");
    reveal_strlit("rust");
    reveal_strlit("go");
    reveal_strlit("golang");
    reveal_strlit("c");
    reveal_strlit("cpp");
    reveal_strlit("c++");
    reveal_strlit("java");
    reveal_strlit("sh");
    reveal_strlit("bash");
}

proof fn lemma_language_sql(lang: Seq<char>)
    requires
        lower_is(lang, "sql"@),
    ensures
        syntax_for(lang) == Some("SQL"@),
{
    reveal_strlit("sql");
    reveal_strlit("js");
    reveal_strlit("javascript");
    reveal_strlit("ts");
    reveal_strlit("typescript");
    reveal_strlit("py");
    reveal_strlit("python");
    reveal_strlit("rs");
    reveal_strlit("rust");
    reveal_strlit("go");
    reveal_strlit("golang");
    reveal_strlit("c");
    reveal_strlit("cpp");
    assert(!lower_is(lang, "cpp"@)) by {
        if lower_is(lang, "cpp"@) {
            assert(lowers_to(lang[0], "sql"@[0]));
            assert(lowers_to(lang[0], "cpp"@[0]));
        }
    }
    reveal_strlit("c++");
    assert(!lower_is(lang, "c++"@)) by {
        if lower_is(lang, "c++"@) {
            assert(lowers_to(lang[0], "sql"@[0]));
            assert(lowers_to(lang[0], "c++"@[0]));
        }
    }
    reveal_strlit("java");
    reveal_strlit("sh");
    reveal_strlit("bash");
    reveal_strlit("shell");
}

proof fn lemma_language_json(lang: Seq<char>)
    requires
        lower_is(lang, "json"@),
    ensures
        syntax_for(lang) == Some("JSON"@),
{
    reveal_strlit("json");
    reveal_strlit("js");
    reveal_strlit("javascript");
    reveal_strlit("ts");
    reveal_strlit("typescript");
    reveal_strlit("py");
    reveal_strlit("python");
    reveal_strlit("rs");
    reveal_strlit("rust");
    assert(!lower_is(lang, "rust"@)) by {
        if lower_is(lang, "rust"@) {
            assert(lowers_to(lang[0], "json"@[0]));
            assert(lowers_to(lang[0], "rust"@[0]));
        }
    }
    reveal_strlit("go");
    reveal_strlit("golang");
    reveal_strlit("c");
    reveal_strlit("cpp");
    reveal_strlit("c++");
    reveal_strlit("java");
    assert(!lower_is(lang, "java"@)) by {
        if lower_is(lang, "java"@) {
            assert(lowers_to(lang[1], "json"@[1]));
            assert(lowers_to(lang[1], "java"@[1]));
        }
    }
    reveal_strlit("sh");
    reveal_strlit("bash");
    assert(!lower_is(lang, "bash"@)) by {
        if lower_is(lang, "bash"@) {
            assert(lowers_to(lang[0], "json"@[0]));
            assert(lowers_to(lang[0], "bash"@[0]));
        }
    }
    reveal_strlit("shell");
    reveal_strlit("sql");
}

proof fn lemma_language_yaml(lang: Seq<char>)
    requires
        lower_is(lang, "yaml"@),
    ensures
        syntax_for(lang) == Some("YAML"@),
{
    reveal_strlit("yaml");
    reveal_strlit("js");
    reveal_strlit("javascript");
    reveal_strlit("ts");
    reveal_strlit("typescript");
    reveal_strlit("py");
    reveal_strlit("python");
    reveal_strlit("rs");
    reveal_strlit("rust");
    assert(!lower_is(lang, "rust"@)) by {
        if lower_is(lang, "rust"@) {
            assert(lowers_to(lang[0], "yaml"@[0]));
            assert(lowers_to(lang[0], "rust"@[0]));
        }
    }
    reveal_strlit("go");
    reveal_strlit("golang");
    reveal_strlit("c");
    reveal_strlit("cpp");
    reveal_strlit("c++");
    reveal_strlit("java");
    assert(!lower_is(lang, "java"@)) by {
        if lower_is(lang, "java"@) {
            assert(lowers_to(lang[0], "yaml"@[0]));
            assert(lowers_to(lang[0], "java"@[0]));
        }
    }
    reveal_strlit("sh");
    reveal_strlit("bash");
    assert(!lower_is(lang, "bash"@)) by {
        if lower_is(lang, "bash"@) {
            assert(lowers_to(lang[0], "yaml"@[0]));
            assert(lowers_to(lang[0], "bash"@[0]));
        }
    }
    reveal_strlit("shell");
    reveal_strlit("sql");
    reveal_strlit("json");
    assert(!lower_is(lang, "json"@)) by {
        if lower_is(lang, "json"@) {
            assert(lowers_to(lang[0], "yaml"@[0]));
            assert(lowers_to(lang[0], "json"@[0]));
        }
    }
}

proof fn lemma_language_yml(lang: Seq<char>)
    requires
        lower_is(lang, "yml"@),
    ensures
        syntax_for(lang) == Some("YAML"@),
{
    reveal_strlit("yml");
    reveal_strlit("js");
    reveal_strlit("javascript");
    reveal_strlit("ts");
    reveal_strlit("typescript");
    reveal_strlit("py");
    reveal_strlit("python");
    reveal_strlit("rs");
    reveal_strlit("rust");
    reveal_strlit("go");
    reveal_strlit("golang");
    reveal_strlit("c");
    reveal_strlit("cpp");
    assert(!lower_is(lang, "cpp"@)) by {
        if lower_is(lang, "cpp"@) {
            assert(lowers_to(lang[0], "yml"@[0]));
            assert(lowers_to(lang[0], "cpp"@[0]));
        }
    }
    reveal_strlit("c++");
    assert(!lower_is(lang, "c++"@)) by {
        if lower_is(lang, "c++"@) {
            assert(lowers_to(lang[0], "yml"@[0]));
            assert(lowers_to(lang[0], "c++"@[0]));
        }
    }
    reveal_strlit("java");
    reveal_strlit("sh");
    reveal_strlit("bash");
    reveal_strlit("shell");
    reveal_strlit("sql");
    assert(!lower_is(lang, "sql"@)) by {
        if lower_is(lang, "sql"@) {
            assert(lowers_to(lang[0], "yml"@[0]));
            assert(lowers_to(lang[0], "sql"@[0]));
        }
    }
    reveal_strlit("json");
    reveal_strlit("yaml");
}

proof fn lemma_language_toml(lang: Seq<char>)
    requires
        lower_is(lang, "toml"@),
    ensures
        syntax_for(lang) == Some("TOML"@),
{
    reveal_strlit("toml");
    reveal_strlit("js");
    reveal_strlit("javascript");
    reveal_strlit("ts");
    reveal_strlit("typescript");
    reveal_strlit("py");
    reveal_strlit("python");
    reveal_strlit("rs");
    reveal_strlit("rust");
    assert(!lower_is(lang, "rust"@)) by {
        if lower_is(lang, "rust"@) {
            assert(lowers_to(lang[0], "toml"@[0]));
            assert(lowers_to(lang[0], "rust"@[0]));
        }
    }
    reveal_strlit("go");
    reveal_strlit("golang");
    reveal_strlit("c");
    reveal_strlit("cpp");
    reveal_strlit("c++");
    reveal_strlit("java");
    assert(!lower_is(lang, "java"@)) by {
        if lower_is(lang, "java"@) {
            assert(lowers_to(lang[0], "toml"@[0]));
            assert(lowers_to(lang[0], "java"@[0]));
        }
    }
    reveal_strlit("sh");
    reveal_strlit("bash");
    assert(!lower_is(lang, "bash"@)) by {
        if lower_is(lang, "bash"@) {
            assert(lowers_to(lang[0], "toml"@[0]));
            assert(lowers_to(lang[0], "bash"@[0]));
        }
    }
    reveal_strlit("shell");
    reveal_strlit("sql");
    reveal_strlit("json");
    assert(!lower_is(lang, "json"@)) by {
        if lower_is(lang, "json"@) {
            assert(lowers_to(lang[0], "toml"@[0]));
            assert(lowers_to(lang[0], "json"@[0]));
        }
    }
    reveal_strlit("yaml");
    assert(!lower_is(lang, "yaml"@)) by {
        if lower_is(lang, "yaml"@) {
            assert(lowers_to(lang[0], "toml"@[0]));
            assert(lowers_to(lang[0], "yaml"@[0]));
        }
    }
    reveal_strlit("yml");
}

proof fn lemma_language_html(lang: Seq<char>)
    requires
        lower_is(lang, "html"@),
    ensures
        syntax_for(lang) == Some("HTML"@),
{
    reveal_strlit("html");
    reveal_strlit("js");
    reveal_strlit("javascript");
    reveal_strlit("ts");
    reveal_strlit("typescript");
    reveal_strlit("py");
    reveal_strlit("python");
    reveal_strlit("rs");
    reveal_strlit("rust");
    assert(!lower_is(lang, "rust"@)) by {
        if lower_is(lang, "rust"@) {
            assert(lowers_to(lang[0], "html"@[0]));
            assert(lowers_to(lang[0], "rust"@[0]));
        }
    }
    reveal_strlit("go");
    reveal_strlit("golang");
    reveal_strlit("c");
    reveal_strlit("cpp");
    reveal_strlit("c++");
    reveal_strlit("java");
    assert(!lower_is(lang, "java"@)) by {
        if lower_is(lang, "java"@) {
            assert(lowers_to(lang[0], "html"@[0]));
            assert(lowers_to(lang[0], "java"@[0]));
        }
    }
    reveal_strlit("sh");
    reveal_strlit("bash");
    assert(!lower_is(lang, "bash"@)) by {
        if lower_is(lang, "bash"@) {
            assert(lowers_to(lang[0], "html"@[0]));
            assert(lowers_to(lang[0], "bash"@[0]));
        }
    }
    reveal_strlit("shell");
    reveal_strlit("sql");
    reveal_strlit("json");
    assert(!lower_is(lang, "json"@)) by {
        if lower_is(lang, "json"@) {
            assert(lowers_to(lang[0], "html"@[0]));
            assert(lowers_to(lang[0], "json"@[0]));
        }
    }
    reveal_strlit("yaml");
    assert(!lower_is(lang, "yaml"@)) by {
        if lower_is(lang, "yaml"@) {
            assert(lowers_to(lang[0], "html"@[0]));
            assert(lowers_to(lang[0], "yaml"@[0]));
        }
    }
    reveal_strlit("yml");
    reveal_strlit("toml");
    assert(!lower_is(lang, "toml"@)) by {
        if lower_is(lang, "toml"@) {
            assert(lowers_to(lang[0], "html"@[0]));
            assert(lowers_to(lang[0], "toml"@[0]));
        }
    }
}

proof fn lemma_language_css(lang: Seq<char>)
    requires
        lower_is(lang, "css"@),
    ensures
        syntax_for(lang) == Some("CSS"@),
{
    reveal_strlit("css");
    reveal_strlit("js");
    reveal_strlit("javascript");
    reveal_strlit("ts");
    reveal_strlit("typescript");
    reveal_strlit("py");
    reveal_strlit("python");
    reveal_strlit("rs");
    reveal_strlit("rust");
    reveal_strlit("go");
    reveal_strlit("golang");
    reveal_strlit("c");
    reveal_strlit("cpp");
    assert(!lower_is(lang, "cpp"@)) by {
        if lower_is(lang, "cpp"@) {
            assert(lowers_to(lang[1], "css"@[1]));
            assert(lowers_to(lang[1], "cpp"@[1]));
        }
    }
    reveal_strlit("c++");
    assert(!lower_is(lang, "c++"@)) by {
        if lower_is(lang, "c++"@) {
            assert(lowers_to(lang[1], "css"@[1]));
            assert(lowers_to(lang[1], "c++"@[1]));
        }
    }
    reveal_strlit("java");
    reveal_strlit("sh");
    reveal_strlit("bash");
    reveal_strlit("shell");
    reveal_strlit("sql");
    assert(!lower_is(lang, "sql"@)) by {
        if lower_is(lang, "sql"@) {
            assert(lowers_to(lang[0], "css"@[0]));
            assert(lowers_to(lang[0], "sql"@[0]));
        }
    }
    reveal_strlit("json");
    reveal_strlit("yaml");
    reveal_strlit("yml");
    assert(!lower_is(lang, "yml"@)) by {
        if lower_is(lang, "yml"@) {
            assert(lowers_to(lang[0], "css"@[0]));
            assert(lowers_to(lang[0], "yml"@[0]));
        }
    }
    reveal_strlit("toml");
    reveal_strlit("html");
}

proof fn lemma_language_md(lang: Seq<char>)
    requires
        lower_is(lang, "md"@),
    ensures
        syntax_for(lang) == Some("Markdown"@),
{
    reveal_strlit("md");
    reveal_strlit("js");
    assert(!lower_is(lang, "js"@)) by {
        if lower_is(lang, "js"@) {
            assert(lowers_to(lang[0], "md"@[0]));
            assert(lowers_to(lang[0], "js"@[0]));
        }
    }
    reveal_strlit("javascript");
    reveal_strlit("ts");
    assert(!lower_is(lang, "ts"@)) by {
        if lower_is(lang, "ts"@) {
            assert(lowers_to(lang[0], "md"@[0]));
            assert(lowers_to(lang[0], "ts"@[0]));
        }
    }
    reveal_strlit("typescript");
    reveal_strlit("py");
    assert(!lower_is(lang, "py"@)) by {
        if lower_is(lang, "py"@) {
            assert(lowers_to(lang[0], "md"@[0]));
            assert(lowers_to(lang[0], "py"@[0]));
        }
    }
    reveal_strlit("python");
    reveal_strlit("rs");
    assert(!lower_is(lang, "rs"@)) by {
        if lower_is(lang, "rs"@) {
            assert(lowers_to(lang[0], "md"@[0]));
            assert(lowers_to(lang[0], "rs"@[0]));
        }
    }
    reveal_strlit("rust");
    reveal_strlit("go");
    assert(!lower_is(lang, "go"@)) by {
        if lower_is(lang, "go"@) {
            assert(lowers_to(lang[0], "md"@[0]));
            assert(lowers_to(lang[0], "go"@[0]));
        }
    }
    reveal_strlit("golang");
    reveal_strlit("c");
    reveal_strlit("cpp");
    reveal_strlit("c++");
    reveal_strlit("java");
    reveal_strlit("sh");
    assert(!lower_is(lang, "sh"@)) by {
        if lower_is(lang, "sh"@) {
            assert(lowers_to(lang[0], "md"@[0]));
            assert(lowers_to(lang[0], "sh"@[0]));
        }
    }
    reveal_strlit("bash");
    reveal_strlit("shell");
    reveal_strlit("sql");
    reveal_strlit("json");
    reveal_strlit("yaml");
    reveal_strlit("yml");
    reveal_strlit("toml");
    reveal_strlit("html");
    reveal_strlit("css");
}

proof fn lemma_language_markdown(lang: Seq<char>)
    requires
        lower_is(lang, "markdown"@),
    ensures
        syntax_for(lang) == Some("Markdown"@),
{
    reveal_strlit("markdown");
    reveal_strlit("js");
    reveal_strlit("javascript");
    reveal_strlit("ts");
    reveal_strlit("typescript");
    reveal_strlit("py");
    reveal_strlit("python");
    reveal_strlit("rs");
    reveal_strlit("rust");
    reveal_strlit("go");
    reveal_strlit("golang");
    reveal_strlit("c");
    reveal_strlit("cpp");
    reveal_strlit("c++");
    reveal_strlit("java");
    reveal_strlit("sh");
    reveal_strlit("bash");
    reveal_strlit("shell");
    reveal_strlit("sql");
    reveal_strlit("json");
    reveal_strlit("yaml");
    reveal_strlit("yml");
    reveal_strlit("toml");
    reveal_strlit("html");
    reveal_strlit("css");
    reveal_strlit("md");
}

proof fn lemma_language_rb(lang: Seq<char>)
    requires
        lower_is(lang, "rb"@),
    ensures
        syntax_for(lang) == Some("Ruby"@),
{
    reveal_strlit("rb");
    reveal_strlit("js");
    assert(!lower_is(lang, "js"@)) by {
        if lower_is(lang, "js"@) {
            assert(lowers_to(lang[0], "rb"@[0]));
            assert(lowers_to(lang[0], "js"@[0]));
        }
    }
    reveal_strlit("javascript");
    reveal_strlit("ts");
    assert(!lower_is(lang, "ts"@)) by {
        if lower_is(lang, "ts"@) {
            assert(lowers_to(lang[0], "rb"@[0]));
            assert(lowers_to(lang[0], "ts"@[0]));
        }
    }
    reveal_strlit("typescript");
    reveal_strlit("py");
    assert(!lower_is(lang, "py"@)) by {
        if lower_is(lang, "py"@) {
            assert(lowers_to(lang[0], "rb"@[0]));
            assert(lowers_to(lang[0], "py"@[0]));
        }
    }
    reveal_strlit("python");
    reveal_strlit("rs");
    assert(!lower_is(lang, "rs"@)) by {
        if lower_is(lang, "rs"@) {
            assert(lowers_to(lang[1], "rb"@[1]));
            assert(lowers_to(lang[1], "rs"@[1]));
        }
    }
    reveal_strlit("rust");
    reveal_strlit("go");
    assert(!lower_is(lang, "go"@)) by {
        if lower_is(lang, "go"@) {
            assert(lowers_to(lang[0], "rb"@[0]));
            assert(lowers_to(lang[0], "go"@[0]));
        }
    }
    reveal_strlit("golang");
    reveal_strlit("c");
    reveal_strlit("cpp");
    reveal_strlit("c++");
    reveal_strlit("java");
    reveal_strlit("sh");
    assert(!lower_is(lang, "sh"@)) by {
        if lower_is(lang, "sh"@) {
            assert(lowers_to(lang[0], "rb"@[0]));
            assert(lowers_to(lang[0], "sh"@[0]));
        }
    }
    reveal_strlit("bash");
    reveal_strlit("shell");
    reveal_strlit("sql");
    reveal_strlit("json");
    reveal_strlit("yaml");
    reveal_strlit("yml");
    reveal_strlit("toml");
    reveal_strlit("html");
    reveal_strlit("css");
    reveal_strlit("md");
    assert(!lower_is(lang, "md"@)) by {
        if lower_is(lang, "md"@) {
            assert(lowers_to(lang[0], "rb"@[0]));
            assert(lowers_to(lang[0], "md"@[0]));
        }
    }
    reveal_strlit("markdown");
}

proof fn lemma_language_ruby(lang: Seq<char>)
    requires
        lower_is(lang, "ruby"@),
    ensures
        syntax_for(lang) == Some("Ruby"@),
{
    reveal_strlit("ruby");
    reveal_strlit("js");
    reveal_strlit("javascript");
    reveal_strlit("ts");
    reveal_strlit("typescript");
    reveal_strlit("py");
    reveal_strlit("python");
    reveal_strlit("rs");
    reveal_strlit("rust");
    assert(!lower_is(lang, "rust"@)) by {
        if lower_is(lang, "rust"@) {
            assert(lowers_to(lang[2], "ruby"@[2]));
            assert(lowers_to(lang[2], "rust"@[2]));
        }
    }
    reveal_strlit("go");
    reveal_strlit("golang");
    reveal_strlit("c");
    reveal_strlit("cpp");
    reveal_strlit("c++");
    reveal_strlit("java");
    assert(!lower_is(lang, "java"@)) by {
        if lower_is(lang, "java"@) {
            assert(lowers_to(lang[0], "ruby"@[0]));
            assert(lowers_to(lang[0], "java"@[0]));
        }
    }
    reveal_strlit("sh");
    reveal_strlit("bash");
    assert(!lower_is(lang, "bash"@)) by {
        if lower_is(lang, "bash"@) {
            assert(lowers_to(lang[0], "ruby"@[0]));
            assert(lowers_to(lang[0], "bash"@[0]));
        }
    }
    reveal_strlit("shell");
    reveal_strlit("sql");
    reveal_strlit("json");
    assert(!lower_is(lang, "json"@)) by {
        if lower_is(lang, "json"@) {
            assert(lowers_to(lang[0], "ruby"@[0]));
            assert(lowers_to(lang[0], "json"@[0]));
        }
    }
    reveal_strlit("yaml");
    assert(!lower_is(lang, "yaml"@)) by {
        if lower_is(lang, "yaml"@) {
            assert(lowers_to(lang[0], "ruby"@[0]));
            assert(lowers_to(lang[0], "yaml"@[0]));
        }
    }
    reveal_strlit("yml");
    reveal_strlit("toml");
    assert(!lower_is(lang, "toml"@)) by {
        if lower_is(lang, "toml"@) {
            assert(lowers_to(lang[0], "ruby"@[0]));
            assert(lowers_to(lang[0], "toml"@[0]));
        }
    }
    reveal_strlit("html");
    assert(!lower_is(lang, "html"@)) by {
        if lower_is(lang, "html"@) {
            assert(lowers_to(lang[0], "ruby"@[0]));
            assert(lowers_to(lang[0], "html"@[0]));
        }
    }
    reveal_strlit("css");
    reveal_strlit("md");
    reveal_strlit("markdown");
    reveal_strlit("rb");
}

proof fn lemma_language_php(lang: Seq<char>)
    requires
        lower_is(lang, "php"@),
    ensures
        syntax_for(lang) == Some("PHP"@),
{
    reveal_strlit("php");
    reveal_strlit("js");
    reveal_strlit("javascript");
    reveal_strlit("ts");
    reveal_strlit("typescript");
    reveal_strlit("py");
    reveal_strlit("python");
    reveal_strlit("rs");
    reveal_strlit("rust");
    reveal_strlit("go");
    reveal_strlit("golang");
    reveal_strlit("c");
    reveal_strlit("cpp");
    assert(!lower_is(lang, "cpp"@)) by {
        if lower_is(lang, "cpp"@) {
            assert(lowers_to(lang[0], "php"@[0]));
            assert(lowers_to(lang[0], "cpp"@[0]));
        }
    }
    reveal_strlit("c++");
    assert(!lower_is(lang, "c++"@)) by {
        if lower_is(lang, "c++"@) {
            assert(lowers_to(lang[0], "php"@[0]));
            assert(lowers_to(lang[0], "c++"@[0]));
        }
    }
    reveal_strlit("java");
    reveal_strlit("sh");
    reveal_strlit("bash");
    reveal_strlit("shell");
    reveal_strlit("sql");
    assert(!lower_is(lang, "sql"@)) by {
        if lower_is(lang, "sql"@) {
            assert(lowers_to(lang[0], "php"@[0]));
            assert(lowers_to(lang[0], "sql"@[0]));
        }
    }
    reveal_strlit("json");
    reveal_strlit("yaml");
    reveal_strlit("yml");
    assert(!lower_is(lang, "yml"@)) by {
        if lower_is(lang, "yml"@) {
            assert(lowers_to(lang[0], "php"@[0]));
            assert(lowers_to(lang[0], "yml"@[0]));
        }
    }
    reveal_strlit("toml");
    reveal_strlit("html");
    reveal_strlit("css");
    assert(!lower_is(lang, "css"@)) by {
        if lower_is(lang, "css"@) {
            assert(lowers_to(lang[0], "php"@[0]));
            assert(lowers_to(lang[0], "css"@[0]));
        }
    }
    reveal_strlit("md");
    reveal_strlit("markdown");
    reveal_strlit("rb");
    reveal_strlit("ruby");
}

proof fn lemma_language_swift(lang: Seq<char>)
    requires
        lower_is(lang, "swift"@),
    ensures
        syntax_for(lang) == Some("Swift"@),
{
    reveal_strlit("swift");
    reveal_strlit("js");
    reveal_strlit("javascript");
    reveal_strlit("ts");
    reveal_strlit("typescript");
    reveal_strlit("py");
    reveal_strlit("python");
    reveal_strlit("rs");
    reveal_strlit("rust");
    reveal_strlit("go");
    reveal_strlit("golang");
    reveal_strlit("c");
    reveal_strlit("cpp");
    reveal_strlit("c++");
    reveal_strlit("java");
    reveal_strlit("sh");
    reveal_strlit("bash");
    reveal_strlit("shell");
    assert(!lower_is(lang, "shell"@)) by {
        if lower_is(lang, "shell"@) {
            assert(lowers_to(lang[1], "swift"@[1]));
            assert(lowers_to(lang[1], "shell"@[1]));
        }
    }
    reveal_strlit("sql");
    reveal_strlit("json");
    reveal_strlit("yaml");
    reveal_strlit("yml");
    reveal_strlit("toml");
    reveal_strlit("html");
    reveal_strlit("css");
    reveal_strlit("md");
    reveal_strlit("markdown");
    reveal_strlit("rb");
    reveal_strlit("ruby");
    reveal_strlit("php");
}

proof fn lemma_language_kt(lang: Seq<char>)
    requires
        lower_is(lang, "kt"@),
    ensures
        syntax_for(lang) == Some("Kotlin"@),
{
    reveal_strlit("kt");
    reveal_strlit("js");
    assert(!lower_is(lang, "js"@)) by {
        if lower_is(lang, "js"@) {
            assert(lowers_to(lang[0], "kt"@[0]));
            assert(lowers_to(lang[0], "js"@[0]));
        }
    }
    reveal_strlit("javascript");
    reveal_strlit("ts");
    assert(!lower_is(lang, "ts"@)) by {
        if lower_is(lang, "ts"@) {
            assert(lowers_to(lang[0], "kt"@[0]));
            assert(lowers_to(lang[0], "ts"@[0]));
        }
    }
    reveal_strlit("typescript");
    reveal_strlit("py");
    assert(!lower_is(lang, "py"@)) by {
        if lower_is(lang, "py"@) {
            assert(lowers_to(lang[0], "kt"@[0]));
            assert(lowers_to(lang[0], "py"@[0]));
        }
    }
    reveal_strlit("python");
    reveal_strlit("rs");
    assert(!lower_is(lang, "rs"@)) by {
        if lower_is(lang, "rs"@) {
            assert(lowers_to(lang[0], "kt"@[0]));
            assert(lowers_to(lang[0], "rs"@[0]));
        }
    }
    reveal_strlit("rust");
    reveal_strlit("go");
    assert(!lower_is(lang, "go"@)) by {
        if lower_is(lang, "go"@) {
            assert(lowers_to(lang[0], "kt"@[0]));
            assert(lowers_to(lang[0], "go"@[0]));
        }
    }
    reveal_strlit("golang");
    reveal_strlit("c");
    reveal_strlit("cpp");
    reveal_strlit("c++");
    reveal_strlit("java");
    reveal_strlit("sh");
    assert(!lower_is(lang, "sh"@)) by {
        if lower_is(lang, "sh"@) {
            assert(lowers_to(lang[0], "kt"@[0]));
            assert(lowers_to(lang[0], "sh"@[0]));
        }
    }
    reveal_strlit("bash");
    reveal_strlit("shell");
    reveal_strlit("sql");
    reveal_strlit("json");
    reveal_strlit("yaml");
    reveal_strlit("yml");
    reveal_strlit("toml");
    reveal_strlit("html");
    reveal_strlit("css");
    reveal_strlit("md");
    assert(!lower_is(lang, "md"@)) by {
        if lower_is(lang, "md"@) {
            assert(lowers_to(lang[0], "kt"@[0]));
            assert(lowers_to(lang[0], "md"@[0]));
        }
    }
    reveal_strlit("markdown");
    reveal_strlit("rb");
    assert(!lower_is(lang, "rb"@)) by {
        if lower_is(lang, "rb"@) {
            assert(lowers_to(lang[0], "kt"@[0]));
            assert(lowers_to(lang[0], "rb"@[0]));
        }
    }
    reveal_strlit("ruby");
    reveal_strlit("php");
    reveal_strlit("swift");
}

proof fn lemma_language_kotlin(lang: Seq<char>)
    requires
        lower_is(lang, "kotlin"@),
    ensures
        syntax_for(lang) == Some("Kotlin"@),
{
    reveal_strlit("kotlin");
    reveal_strlit("js");
    reveal_strlit("javascript");
    reveal_strlit("ts");
    reveal_strlit("typescript");
    reveal_strlit("py");
    reveal_strlit("python");
    assert(!lower_is(lang, "python"@)) by {
        if lower_is(lang, "python"@) {
            assert(lowers_to(lang[0], "kotlin"@[0]));
            assert(lowers_to(lang[0], "python"@[0]));
        }
    }
    reveal_strlit("rs");
    reveal_strlit("rust");
    reveal_strlit("go");
    reveal_strlit("golang");
    assert(!lower_is(lang, "golang"@)) by {
        if lower_is(lang, "golang"@) {
            assert(lowers_to(lang[0], "kotlin"@[0]));
            assert(lowers_to(lang[0], "golang"@[0]));
        }
    }
    reveal_strlit("c");
    reveal_strlit("cpp");
    reveal_strlit("c++");
    reveal_strlit("java");
    reveal_strlit("sh");
    reveal_strlit("bash");
    reveal_strlit("shell");
    reveal_strlit("sql");
    reveal_strlit("json");
    reveal_strlit("yaml");
    reveal_strlit("yml");
    reveal_strlit("toml");
    reveal_strlit("html");
    reveal_strlit("css");
    reveal_strlit("md");
    reveal_strlit("markdown");
    reveal_strlit("rb");
    reveal_strlit("ruby");
    reveal_strlit("php");
    reveal_strlit("swift");
    reveal_strlit("kt");
}

proof fn lemma_language_scala(lang: Seq<char>)
    requires
        lower_is(lang, "scala"@),
    ensures
        syntax_for(lang) == Some("Scala"@),
{
    reveal_strlit("scala");
    reveal_strlit("js");
    reveal_strlit("javascript");
    reveal_strlit("ts");
    reveal_strlit("typescript");
    reveal_strlit("py");
    reveal_strlit("python");
    reveal_strlit("rs");
    reveal_strlit("rust");
    reveal_strlit("go");
    reveal_strlit("golang");
    reveal_strlit("c");
    reveal_strlit("cpp");
    reveal_strlit("c++");
    reveal_strlit("java");
    reveal_strlit("sh");
    reveal_strlit("bash");
    reveal_strlit("shell");
    assert(!lower_is(lang, "shell"@)) by {
        if lower_is(lang, "shell"@) {
            assert(lowers_to(lang[1], "scala"@[1]));
            assert(lowers_to(lang[1], "shell"@[1]));
        }
    }
    reveal_strlit("sql");
    reveal_strlit("json");
    reveal_strlit("yaml");
    reveal_strlit("yml");
    reveal_strlit("toml");
    reveal_strlit("html");
    reveal_strlit("css");
    reveal_strlit("md");
    reveal_strlit("markdown");
    reveal_strlit("rb");
    reveal_strlit("ruby");
    reveal_strlit("php");
    reveal_strlit("swift");
    assert(!lower_is(lang, "swift"@)) by {
        if lower_is(lang, "swift"@) {
            assert(lowers_to(lang[1], "scala"@[1]));
            assert(lowers_to(lang[1], "swift"@[1]));
        }
    }
    reveal_strlit("kt");
    reveal_strlit("kotlin");
}

proof fn lemma_language_r(lang: Seq<char>)
    requires
        lower_is(lang, "r"@),
    ensures
        syntax_for(lang) == Some("R"@),
{
    reveal_strlit("r");
    reveal_strlit("js");
    reveal_strlit("javascript");
    reveal_strlit("ts");
    reveal_strlit("typescript");
    reveal_strlit("py");
    reveal_strlit("python");
    reveal_strlit("rs");
    reveal_strlit("rust");
    reveal_strlit("go");
    reveal_strlit("golang");
    reveal_strlit("c");
    assert(!lower_is(lang, "c"@)) by {
        if lower_is(lang, "c"@) {
            assert(lowers_to(lang[0], "r"@[0]));
            assert(lowers_to(lang[0], "c"@[0]));
        }
    }
    reveal_strlit("cpp");
    reveal_strlit("c++");
    reveal_strlit("java");
    reveal_strlit("sh");
    reveal_strlit("bash");
    reveal_strlit("shell");
    reveal_strlit("sql");
    reveal_strlit("json");
    reveal_strlit("yaml");
    reveal_strlit("yml");
    reveal_strlit("toml");
    reveal_strlit("html");
    reveal_strlit("css");
    reveal_strlit("md");
    reveal_strlit("markdown");
    reveal_strlit("rb");
    reveal_strlit("ruby");
    reveal_strlit("php");
    reveal_strlit("swift");
    reveal_strlit("kt");
    reveal_strlit("kotlin");
    reveal_strlit("scala");
}

proof fn lemma_language_lua(lang: Seq<char>)
    requires
        lower_is(lang, "lua"@),
    ensures
        syntax_for(lang) == Some("Lua"@),
{
    reveal_strlit("lua");
    reveal_strlit("js");
    reveal_strlit("javascript");
    reveal_strlit("ts");
    reveal_strlit("typescript");
    reveal_strlit("py");
    reveal_strlit("python");
    reveal_strlit("rs");
    reveal_strlit("rust");
    reveal_strlit("go");
    reveal_strlit("golang");
    reveal_strlit("c");
    reveal_strlit("cpp");
    assert(!lower_is(lang, "cpp"@)) by {
        if lower_is(lang, "cpp"@) {
            assert(lowers_to(lang[0], "lua"@[0]));
            assert(lowers_to(lang[0], "cpp"@[0]));
        }
    }
    reveal_strlit("c++");
    assert(!lower_is(lang, "c++"@)) by {
        if lower_is(lang, "c++"@) {
            assert(lowers_to(lang[0], "lua"@[0]));
            assert(lowers_to(lang[0], "c++"@[0]));
        }
    }
    reveal_strlit("java");
    reveal_strlit("sh");
    reveal_strlit("bash");
    reveal_strlit("shell");
    reveal_strlit("sql");
    assert(!lower_is(lang, "sql"@)) by {
        if lower_is(lang, "sql"@) {
            assert(lowers_to(lang[0], "lua"@[0]));
            assert(lowers_to(lang[0], "sql"@[0]));
        }
    }
    reveal_strlit("json");
    reveal_strlit("yaml");
    reveal_strlit("yml");
    assert(!lower_is(lang, "yml"@)) by {
        if lower_is(lang, "yml"@) {
            assert(lowers_to(lang[0], "lua"@[0]));
            assert(lowers_to(lang[0], "yml"@[0]));
        }
    }
    reveal_strlit("toml");
    reveal_strlit("html");
    reveal_strlit("css");
    assert(!lower_is(lang, "css"@)) by {
        if lower_is(lang, "css"@) {
            assert(lowers_to(lang[0], "lua"@[0]));
            assert(lowers_to(lang[0], "css"@[0]));
        }
    }
    reveal_strlit("md");
    reveal_strlit("markdown");
    reveal_strlit("rb");
    reveal_strlit("ruby");
    reveal_strlit("php");
    assert(!lower_is(lang, "php"@)) by {
        if lower_is(lang, "php"@) {
            assert(lowers_to(lang[0], "lua"@[0]));
            assert(lowers_to(lang[0], "php"@[0]));
        }
    }
    reveal_strlit("swift");
    reveal_strlit("kt");
    reveal_strlit("kotlin");
    reveal_strlit("scala");
    reveal_strlit("r");
}

proof fn lemma_language_haskell(lang: Seq<char>)
    requires
        lower_is(lang, "haskell"@),
    ensures
        syntax_for(lang) == Some("Haskell"@),
{
    reveal_strlit("haskell");
    reveal_strlit("js");
    reveal_strlit("javascript");
    reveal_strlit("ts");
    reveal_strlit("typescript");
    reveal_strlit("py");
    reveal_strlit("python");
    reveal_strlit("rs");
    reveal_strlit("rust");
    reveal_strlit("go");
    reveal_strlit("golang");
    reveal_strlit("c");
    reveal_strlit("cpp");
    reveal_strlit("c++");
    reveal_strlit("java");
    reveal_strlit("sh");
    reveal_strlit("bash");
    reveal_strlit("shell");
    reveal_strlit("sql");
    reveal_strlit("json");
    reveal_strlit("yaml");
    reveal_strlit("yml");
    reveal_strlit("toml");
    reveal_strlit("html");
    reveal_strlit("css");
    reveal_strlit("md");
    reveal_strlit("markdown");
    reveal_strlit("rb");
    reveal_strlit("ruby");
    reveal_strlit("php");
    reveal_strlit("swift");
    reveal_strlit("kt");
    reveal_strlit("kotlin");
    reveal_strlit("scala");
    reveal_strlit("r");
    reveal_strlit("lua");
}

proof fn lemma_language_hs(lang: Seq<char>)
    requires
        lower_is(lang, "hs"@),
    ensures
        syntax_for(lang) == Some("Haskell"@),
{
    reveal_strlit("hs");
    reveal_strlit("js");
    assert(!lower_is(lang, "js"@)) by {
        if lower_is(lang, "js"@) {
            assert(lowers_to(lang[0], "hs"@[0]));
            assert(lowers_to(lang[0], "js"@[0]));
        }
    }
    reveal_strlit("javascript");
    reveal_strlit("ts");
    assert(!lower_is(lang, "ts"@)) by {
        if lower_is(lang, "ts"@) {
            assert(lowers_to(lang[0], "hs"@[0]));
            assert(lowers_to(lang[0], "ts"@[0]));
        }
    }
    reveal_strlit("typescript");
    reveal_strlit("py");
    assert(!lower_is(lang, "py"@)) by {
        if lower_is(lang, "py"@) {
            assert(lowers_to(lang[0], "hs"@[0]));
            assert(lowers_to(lang[0], "py"@[0]));
        }
    }
    reveal_strlit("python");
    reveal_strlit("rs");
    assert(!lower_is(lang, "rs"@)) by {
        if lower_is(lang, "rs"@) {
            assert(lowers_to(lang[0], "hs"@[0]));
            assert(lowers_to(lang[0], "rs"@[0]));
        }
    }
    reveal_strlit("rust");
    reveal_strlit("go");
    assert(!lower_is(lang, "go"@)) by {
        if lower_is(lang, "go"@) {
            assert(lowers_to(lang[0], "hs"@[0]));
            assert(lowers_to(lang[0], "go"@[0]));
        }
    }
    reveal_strlit("golang");
    reveal_strlit("c");
    reveal_strlit("cpp");
    reveal_strlit("c++");
    reveal_strlit("java");
    reveal_strlit("sh");
    assert(!lower_is(lang, "sh"@)) by {
        if lower_is(lang, "sh"@) {
            assert(lowers_to(lang[0], "hs"@[0]));
            assert(lowers_to(lang[0], "sh"@[0]));
        }
    }
    reveal_strlit("bash");
    reveal_strlit("shell");
    reveal_strlit("sql");
    reveal_strlit("json");
    reveal_strlit("yaml");
    reveal_strlit("yml");
    reveal_strlit("toml");
    reveal_strlit("html");
    reveal_strlit("css");
    reveal_strlit("md");
    assert(!lower_is(lang, "md"@)) by {
        if lower_is(lang, "md"@) {
            assert(lowers_to(lang[0], "hs"@[0]));
            assert(lowers_to(lang[0], "md"@[0]));
        }
    }
    reveal_strlit("markdown");
    reveal_strlit("rb");
    assert(!lower_is(lang, "rb"@)) by {
        if lower_is(lang, "rb"@) {
            assert(lowers_to(lang[0], "hs"@[0]));
            assert(lowers_to(lang[0], "rb"@[0]));
        }
    }
    reveal_strlit("ruby");
    reveal_strlit("php");
    reveal_strlit("swift");
    reveal_strlit("kt");
    assert(!lower_is(lang, "kt"@)) by {
        if lower_is(lang, "kt"@) {
            assert(lowers_to(lang[0], "hs"@[0]));
            assert(lowers_to(lang[0], "kt"@[0]));
        }
    }
    reveal_strlit("kotlin");
    reveal_strlit("scala");
    reveal_strlit("r");
    reveal_strlit("lua");
    reveal_strlit("haskell");
}

proof fn lemma_language_dart(lang: Seq<char>)
    requires
        lower_is(lang, "dart"@),
    ensures
        syntax_for(lang) == Some("Dart"@),
{
    reveal_strlit("dart");
    reveal_strlit("js");
    reveal_strlit("javascript");
    reveal_strlit("ts");
    reveal_strlit("typescript");
    reveal_strlit("py");
    reveal_strlit("python");
    reveal_strlit("rs");
    reveal_strlit("rust");
    assert(!lower_is(lang, "rust"@)) by {
        if lower_is(lang, "rust"@) {
            assert(lowers_to(lang[0], "dart"@[0]));
            assert(lowers_to(lang[0], "rust"@[0]));
        }
    }
    reveal_strlit("go");
    reveal_strlit("golang");
    reveal_strlit("c");
    reveal_strlit("cpp");
    reveal_strlit("c++");
    reveal_strlit("java");
    assert(!lower_is(lang, "java"@)) by {
        if lower_is(lang, "java"@) {
            assert(lowers_to(lang[0], "dart"@[0]));
            assert(lowers_to(lang[0], "java"@[0]));
        }
    }
    reveal_strlit("sh");
    reveal_strlit("bash");
    assert(!lower_is(lang, "bash"@)) by {
        if lower_is(lang, "bash"@) {
            assert(lowers_to(lang[0], "dart"@[0]));
            assert(lowers_to(lang[0], "bash"@[0]));
        }
    }
    reveal_strlit("shell");
    reveal_strlit("sql");
    reveal_strlit("json");
    assert(!lower_is(lang, "json"@)) by {
        if lower_is(lang, "json"@) {
            assert(lowers_to(lang[0], "dart"@[0]));
            assert(lowers_to(lang[0], "json"@[0]));
        }
    }
    reveal_strlit("yaml");
    assert(!lower_is(lang, "yaml"@)) by {
        if lower_is(lang, "yaml"@) {
            assert(lowers_to(lang[0], "dart"@[0]));
            assert(lowers_to(lang[0], "yaml"@[0]));
        }
    }
    reveal_strlit("yml");
    reveal_strlit("toml");
    assert(!lower_is(lang, "toml"@)) by {
        if lower_is(lang, "toml"@) {
            assert(lowers_to(lang[0], "dart"@[0]));
            assert(lowers_to(lang[0], "toml"@[0]));
        }
    }
    reveal_strlit("html");
    assert(!lower_is(lang, "html"@)) by {
        if lower_is(lang, "html"@) {
            assert(lowers_to(lang[0], "dart"@[0]));
            assert(lowers_to(lang[0], "html"@[0]));
        }
    }
    reveal_strlit("css");
    reveal_strlit("md");
    reveal_strlit("markdown");
    reveal_strlit("rb");
    reveal_strlit("ruby");
    assert(!lower_is(lang, "ruby"@)) by {
        if lower_is(lang, "ruby"@) {
            assert(lowers_to(lang[0], "dart"@[0]));
            assert(lowers_to(lang[0], "ruby"@[0]));
        }
    }
    reveal_strlit("php");
    reveal_strlit("swift");
    reveal_strlit("kt");
    reveal_strlit("kotlin");
    reveal_strlit("scala");
    reveal_strlit("r");
    reveal_strlit("lua");
    reveal_strlit("haskell");
    reveal_strlit("hs");
}

proof fn lemma_language_elixir(lang: Seq<char>)
    requires
        lower_is(lang, "elixir"@),
    ensures
        syntax_for(lang) == Some("Elixir"@),
{
    reveal_strlit("elixir");
    reveal_strlit("js");
    reveal_strlit("javascript");
    reveal_strlit("ts");
    reveal_strlit("typescript");
    reveal_strlit("py");
    reveal_strlit("python");
    assert(!lower_is(lang, "python"@)) by {
        if lower_is(lang, "python"@) {
            assert(lowers_to(lang[0], "elixir"@[0]));
            assert(lowers_to(lang[0], "python"@[0]));
        }
    }
    reveal_strlit("rs");
    reveal_strlit("rust");
    reveal_strlit("go");
    reveal_strlit("golang");
    assert(!lower_is(lang, "golang"@)) by {
        if lower_is(lang, "golang"@) {
            assert(lowers_to(lang[0], "elixir"@[0]));
            assert(lowers_to(lang[0], "golang"@[0]));
        }
    }
    reveal_strlit("c");
    reveal_strlit("cpp");
    reveal_strlit("c++");
    reveal_strlit("java");
    reveal_strlit("sh");
    reveal_strlit("bash");
    reveal_strlit("shell");
    reveal_strlit("sql");
    reveal_strlit("json");
    reveal_strlit("yaml");
    reveal_strlit("yml");
    reveal_strlit("toml");
    reveal_strlit("html");
    reveal_strlit("css");
    reveal_strlit("md");
    reveal_strlit("markdown");
    reveal_strlit("rb");
    reveal_strlit("ruby");
    reveal_strlit("php");
    reveal_strlit("swift");
    reveal_strlit("kt");
    reveal_strlit("kotlin");
    assert(!lower_is(lang, "kotlin"@)) by {
        if lower_is(lang, "kotlin"@) {
            assert(lowers_to(lang[0], "elixir"@[0]));
            assert(lowers_to(lang[0], "kotlin"@[0]));
        }
    }
    reveal_strlit("scala");
    reveal_strlit("r");
    reveal_strlit("lua");
    reveal_strlit("haskell");
    reveal_strlit("hs");
    reveal_strlit("dart");
}

proof fn lemma_language_ex(lang: Seq<char>)
    requires
        lower_is(lang, "ex"@),
    ensures
        syntax_for(lang) == Some("Elixir"@),
{
    reveal_strlit("ex");
    reveal_strlit("js");
    assert(!lower_is(lang, "js"@)) by {
        if lower_is(lang, "js"@) {
            assert(lowers_to(lang[0], "ex"@[0]));
            assert(lowers_to(lang[0], "js"@[0]));
        }
    }
    reveal_strlit("javascript");
    reveal_strlit("ts");
    assert(!lower_is(lang, "ts"@)) by {
        if lower_is(lang, "ts"@) {
            assert(lowers_to(lang[0], "ex"@[0]));
            assert(lowers_to(lang[0], "ts"@[0]));
        }
    }
    reveal_strlit("typescript");
    reveal_strlit("py");
    assert(!lower_is(lang, "py"@)) by {
        if lower_is(lang, "py"@) {
            assert(lowers_to(lang[0], "ex"@[0]));
            assert(lowers_to(lang[0], "py"@[0]));
        }
    }
    reveal_strlit("python");
    reveal_strlit("rs");
    assert(!lower_is(lang, "rs"@)) by {
        if lower_is(lang, "rs"@) {
            assert(lowers_to(lang[0], "ex"@[0]));
            assert(lowers_to(lang[0], "rs"@[0]));
        }
    }
    reveal_strlit("rust");
    reveal_strlit("go");
    assert(!lower_is(lang, "go"@)) by {
        if lower_is(lang, "go"@) {
            assert(lowers_to(lang[0], "ex"@[0]));
            assert(lowers_to(lang[0], "go"@[0]));
        }
    }
    reveal_strlit("golang");
    reveal_strlit("c");
    reveal_strlit("cpp");
    reveal_strlit("c++");
    reveal_strlit("java");
    reveal_strlit("sh");
    assert(!lower_is(lang, "sh"@)) by {
        if lower_is(lang, "sh"@) {
            assert(lowers_to(lang[0], "ex"@[0]));
            assert(lowers_to(lang[0], "sh"@[0]));
        }
    }
    reveal_strlit("bash");
    reveal_strlit("shell");
    reveal_strlit("sql");
    reveal_strlit("json");
    reveal_strlit("yaml");
    reveal_strlit("yml");
    reveal_strlit("toml");
    reveal_strlit("html");
    reveal_strlit("css");
    reveal_strlit("md");
    assert(!lower_is(lang, "md"@)) by {
        if lower_is(lang, "md"@) {
            assert(lowers_to(lang[0], "ex"@[0]));
            assert(lowers_to(lang[0], "md"@[0]));
        }
    }
    reveal_strlit("markdown");
    reveal_strlit("rb");
    assert(!lower_is(lang, "rb"@)) by {
        if lower_is(lang, "rb"@) {
            assert(lowers_to(lang[0], "ex"@[0]));
            assert(lowers_to(lang[0], "rb"@[0]));
        }
    }
    reveal_strlit("ruby");
    reveal_strlit("php");
    reveal_strlit("swift");
    reveal_strlit("kt");
    assert(!lower_is(lang, "kt"@)) by {
        if lower_is(lang, "kt"@) {
            assert(lowers_to(lang[0], "ex"@[0]));
            assert(lowers_to(lang[0], "kt"@[0]));
        }
    }
    reveal_strlit("kotlin");
    reveal_strlit("scala");
    reveal_strlit("r");
    reveal_strlit("lua");
    reveal_strlit("haskell");
    reveal_strlit("hs");
    assert(!lower_is(lang, "hs"@)) by {
        if lower_is(lang, "hs"@) {
            assert(lowers_to(lang[0], "ex"@[0]));
            assert(lowers_to(lang[0], "hs"@[0]));
        }
    }
    reveal_strlit("dart");
    reveal_strlit("elixir");
}

proof fn lemma_language_xml(lang: Seq<char>)
    requires
        lower_is(lang, "xml"@),
    ensures
        syntax_for(lang) == Some("XML"@),
{
    reveal_strlit("xml");
    reveal_strlit("js");
    reveal_strlit("javascript");
    reveal_strlit("ts");
    reveal_strlit("typescript");
    reveal_strlit("py");
    reveal_strlit("python");
    reveal_strlit("rs");
    reveal_strlit("rust");
    reveal_strlit("go");
    reveal_strlit("golang");
    reveal_strlit("c");
    reveal_strlit("cpp");
    assert(!lower_is(lang, "cpp"@)) by {
        if lower_is(lang, "cpp"@) {
            assert(lowers_to(lang[0], "xml"@[0]));
            assert(lowers_to(lang[0], "cpp"@[0]));
        }
    }
    reveal_strlit("c++");
    assert(!lower_is(lang, "c++"@)) by {
        if lower_is(lang, "c++"@) {
            assert(lowers_to(lang[0], "xml"@[0]));
            assert(lowers_to(lang[0], "c++"@[0]));
        }
    }
    reveal_strlit("java");
    reveal_strlit("sh");
    reveal_strlit("bash");
    reveal_strlit("shell");
    reveal_strlit("sql");
    assert(!lower_is(lang, "sql"@)) by {
        if lower_is(lang, "sql"@) {
            assert(lowers_to(lang[0], "xml"@[0]));
            assert(lowers_to(lang[0], "sql"@[0]));
        }
    }
    reveal_strlit("json");
    reveal_strlit("yaml");
    reveal_strlit("yml");
    assert(!lower_is(lang, "yml"@)) by {
        if lower_is(lang, "yml"@) {
            assert(lowers_to(lang[0], "xml"@[0]));
            assert(lowers_to(lang[0], "yml"@[0]));
        }
    }
    reveal_strlit("toml");
    reveal_strlit("html");
    reveal_strlit("css");
    assert(!lower_is(lang, "css"@)) by {
        if lower_is(lang, "css"@) {
            assert(lowers_to(lang[0], "xml"@[0]));
            assert(lowers_to(lang[0], "css"@[0]));
        }
    }
    reveal_strlit("md");
    reveal_strlit("markdown");
    reveal_strlit("rb");
    reveal_strlit("ruby");
    reveal_strlit("php");
    assert(!lower_is(lang, "php"@)) by {
        if lower_is(lang, "php"@) {
            assert(lowers_to(lang[0], "xml"@[0]));
            assert(lowers_to(lang[0], "php"@[0]));
        }
    }
    reveal_strlit("swift");
    reveal_strlit("kt");
    reveal_strlit("kotlin");
    reveal_strlit("scala");
    reveal_strlit("r");
    reveal_strlit("lua");
    assert(!lower_is(lang, "lua"@)) by {
        if lower_is(lang, "lua"@) {
            assert(lowers_to(lang[0], "xml"@[0]));
            assert(lowers_to(lang[0], "lua"@[0]));
        }
    }
    reveal_strlit("haskell");
    reveal_strlit("hs");
    reveal_strlit("dart");
    reveal_strlit("elixir");
    reveal_strlit("ex");
}

proof fn lemma_language_dockerfile(lang: Seq<char>)
    requires
        lower_is(lang, "dockerfile"@),
    ensures
        syntax_for(lang) == Some("Dockerfile"@),
{
    reveal_strlit("dockerfile");
    reveal_strlit("js");
    reveal_strlit("javascript");
    assert(!lower_is(lang, "javascript"@)) by {
        if lower_is(lang, "javascript"@) {
            assert(lowers_to(lang[0], "dockerfile"@[0]));
            assert(lowers_to(lang[0], "javascript"@[0]));
        }
    }
    reveal_strlit("ts");
    reveal_strlit("typescript");
    assert(!lower_is(lang, "typescript"@)) by {
        if lower_is(lang, "typescript"@) {
            assert(lowers_to(lang[0], "dockerfile"@[0]));
            assert(lowers_to(lang[0], "typescript"@[0]));
        }
    }
    reveal_strlit("py");
    reveal_strlit("python");
    reveal_strlit("rs");
    reveal_strlit("rust");
    reveal_strlit("go");
    reveal_strlit("golang");
    reveal_strlit("c");
    reveal_strlit("cpp");
    reveal_strlit("c++");
    reveal_strlit("java");
    reveal_strlit("sh");
    reveal_strlit("bash");
    reveal_strlit("shell");
    reveal_strlit("sql");
    reveal_strlit("json");
    reveal_strlit("yaml");
    reveal_strlit("yml");
    reveal_strlit("toml");
    reveal_strlit("html");
    reveal_strlit("css");
    reveal_strlit("md");
    reveal_strlit("markdown");
    reveal_strlit("rb");
    reveal_strlit("ruby");
    reveal_strlit("php");
    reveal_strlit("swift");
    reveal_strlit("kt");
    reveal_strlit("kotlin");
    reveal_strlit("scala");
    reveal_strlit("r");
    reveal_strlit("lua");
    reveal_strlit("haskell");
    reveal_strlit("hs");
    reveal_strlit("dart");
    reveal_strlit("elixir");
    reveal_strlit("ex");
    reveal_strlit("xml");
}

proof fn lemma_language_docker(lang: Seq<char>)
    requires
        lower_is(lang, "docker"@),
    ensures
        syntax_for(lang) == Some("Dockerfile"@),
{
    reveal_strlit("docker");
    reveal_strlit("js");
    reveal_strlit("javascript");
    reveal_strlit("ts");
    reveal_strlit("typescript");
    reveal_strlit("py");
    reveal_strlit("python");
    assert(!lower_is(lang, "python"@)) by {
        if lower_is(lang, "python"@) {
            assert(lowers_to(lang[0], "docker"@[0]));
            assert(lowers_to(lang[0], "python"@[0]));
        }
    }
    reveal_strlit("rs");
    reveal_strlit("rust");
    reveal_strlit("go");
    reveal_strlit("golang");
    assert(!lower_is(lang, "golang"@)) by {
        if lower_is(lang, "golang"@) {
            assert(lowers_to(lang[0], "docker"@[0]));
            assert(lowers_to(lang[0], "golang"@[0]));
        }
    }
    reveal_strlit("c");
    reveal_strlit("cpp");
    reveal_strlit("c++");
    reveal_strlit("java");
    reveal_strlit("sh");
    reveal_strlit("bash");
    reveal_strlit("shell");
    reveal_strlit("sql");
    reveal_strlit("json");
    reveal_strlit("yaml");
    reveal_strlit("yml");
    reveal_strlit("toml");
    reveal_strlit("html");
    reveal_strlit("css");
    reveal_strlit("md");
    reveal_strlit("markdown");
    reveal_strlit("rb");
    reveal_strlit("ruby");
    reveal_strlit("php");
    reveal_strlit("swift");
    reveal_strlit("kt");
    reveal_strlit("kotlin");
    assert(!lower_is(lang, "kotlin"@)) by {
        if lower_is(lang, "kotlin"@) {
            assert(lowers_to(lang[0], "docker"@[0]));
            assert(lowers_to(lang[0], "kotlin"@[0]));
        }
    }
    reveal_strlit("scala");
    reveal_strlit("r");
    reveal_strlit("lua");
    reveal_strlit("haskell");
    reveal_strlit("hs");
    reveal_strlit("dart");
    reveal_strlit("elixir");
    assert(!lower_is(lang, "elixir"@)) by {
        if lower_is(lang, "elixir"@) {
            assert(lowers_to(lang[0], "docker"@[0]));
            assert(lowers_to(lang[0], "elixir"@[0]));
        }
    }
    reveal_strlit("ex");
    reveal_strlit("xml");
    reveal_strlit("dockerfile");
}

proof fn lemma_language_makefile(lang: Seq<char>)
    requires
        lower_is(lang, "makefile"@),
    ensures
        syntax_for(lang) == Some("Makefile"@),
{
    reveal_strlit("makefile");
    reveal_strlit("js");
    reveal_strlit("javascript");
    reveal_strlit("ts");
    reveal_strlit("typescript");
    reveal_strlit("py");
    reveal_strlit("python");
    reveal_strlit("rs");
    reveal_strlit("rust");
    reveal_strlit("go");
    reveal_strlit("golang");
    reveal_strlit("c");
    reveal_strlit("cpp");
    reveal_strlit("c++");
    reveal_strlit("java");
    reveal_strlit("sh");
    reveal_strlit("bash");
    reveal_strlit("shell");
    reveal_strlit("sql");
    reveal_strlit("json");
    reveal_strlit("yaml");
    reveal_strlit("yml");
    reveal_strlit("toml");
    reveal_strlit("html");
    reveal_strlit("css");
    reveal_strlit("md");
    reveal_strlit("markdown");
    assert(!lower_is(lang, "markdown"@)) by {
        if lower_is(lang, "markdown"@) {
            assert(lowers_to(lang[2], "makefile"@[2]));
            assert(lowers_to(lang[2], "markdown"@[2]));
        }
    }
    reveal_strlit("rb");
    reveal_strlit("ruby");
    reveal_strlit("php");
    reveal_strlit("swift");
    reveal_strlit("kt");
    reveal_strlit("kotlin");
    reveal_strlit("scala");
    reveal_strlit("r");
    reveal_strlit("lua");
    reveal_strlit("haskell");
    reveal_strlit("hs");
    reveal_strlit("dart");
    reveal_strlit("elixir");
    reveal_strlit("ex");
    reveal_strlit("xml");
    reveal_strlit("dockerfile");
    reveal_strlit("docker");
}

proof fn lemma_language_make(lang: Seq<char>)
    requires
        lower_is(lang, "make"@),
    ensures
        syntax_for(lang) == Some("Makefile"@),
{
    reveal_strlit("make");
    reveal_strlit("js");
    reveal_strlit("javascript");
    reveal_strlit("ts");
    reveal_strlit("typescript");
    reveal_strlit("py");
    reveal_strlit("python");
    reveal_strlit("rs");
    reveal_strlit("rust");
    assert(!lower_is(lang, "rust"@)) by {
        if lower_is(lang, "rust"@) {
            assert(lowers_to(lang[0], "make"@[0]));
            assert(lowers_to(lang[0], "rust"@[0]));
        }
    }
    reveal_strlit("go");
    reveal_strlit("golang");
    reveal_strlit("c");
    reveal_strlit("cpp");
    reveal_strlit("c++");
    reveal_strlit("java");
    assert(!lower_is(lang, "java"@)) by {
        if lower_is(lang, "java"@) {
            assert(lowers_to(lang[0], "make"@[0]));
            assert(lowers_to(lang[0], "java"@[0]));
        }
    }
    reveal_strlit("sh");
    reveal_strlit("bash");
    assert(!lower_is(lang, "bash"@)) by {
        if lower_is(lang, "bash"@) {
            assert(lowers_to(lang[0], "make"@[0]));
            assert(lowers_to(lang[0], "bash"@[0]));
        }
    }
    reveal_strlit("shell");
    reveal_strlit("sql");
    reveal_strlit("json");
    assert(!lower_is(lang, "json"@)) by {
        if lower_is(lang, "json"@) {
            assert(lowers_to(lang[0], "make"@[0]));
            assert(lowers_to(lang[0], "json"@[0]));
        }
    }
    reveal_strlit("yaml");
    assert(!lower_is(lang, "yaml"@)) by {
        if lower_is(lang, "yaml"@) {
            assert(lowers_to(lang[0], "make"@[0]));
            assert(lowers_to(lang[0], "yaml"@[0]));
        }
    }
    reveal_strlit("yml");
    reveal_strlit("toml");
    assert(!lower_is(lang, "toml"@)) by {
        if lower_is(lang, "toml"@) {
            assert(lowers_to(lang[0], "make"@[0]));
            assert(lowers_to(lang[0], "toml"@[0]));
        }
    }
    reveal_strlit("html");
    assert(!lower_is(lang, "html"@)) by {
        if lower_is(lang, "html"@) {
            assert(lowers_to(lang[0], "make"@[0]));
            assert(lowers_to(lang[0], "html"@[0]));
        }
    }
    reveal_strlit("css");
    reveal_strlit("md");
    reveal_strlit("markdown");
    reveal_strlit("rb");
    reveal_strlit("ruby");
    assert(!lower_is(lang, "ruby"@)) by {
        if lower_is(lang, "ruby"@) {
            assert(lowers_to(lang[0], "make"@[0]));
            assert(lowers_to(lang[0], "ruby"@[0]));
        }
    }
    reveal_strlit("php");
    reveal_strlit("swift");
    reveal_strlit("kt");
    reveal_strlit("kotlin");
    reveal_strlit("scala");
    reveal_strlit("r");
    reveal_strlit("lua");
    reveal_strlit("haskell");
    reveal_strlit("hs");
    reveal_strlit("dart");
    assert(!lower_is(lang, "dart"@)) by {
        if lower_is(lang, "dart"@) {
            assert(lowers_to(lang[0], "make"@[0]));
            assert(lowers_to(lang[0], "dart"@[0]));
        }
    }
    reveal_strlit("elixir");
    reveal_strlit("ex");
    reveal_strlit("xml");
    reveal_strlit("dockerfile");
    reveal_strlit("docker");
    reveal_strlit("makefile");
}

proof fn lemma_language_nginx(lang: Seq<char>)
    requires
        lower_is(lang, "nginx"@),
    ensures
        syntax_for(lang) == Some("Nginx"@),
{
    reveal_strlit("nginx");
    reveal_strlit("js");
    reveal_strlit("javascript");
    reveal_strlit("ts");
    reveal_strlit("typescript");
    reveal_strlit("py");
    reveal_strlit("python");
    reveal_strlit("rs");
    reveal_strlit("rust");
    reveal_strlit("go");
    reveal_strlit("golang");
    reveal_strlit("c");
    reveal_strlit("cpp");
    reveal_strlit("c++");
    reveal_strlit("java");
    reveal_strlit("sh");
    reveal_strlit("bash");
    reveal_strlit("shell");
    assert(!lower_is(lang, "shell"@)) by {
        if lower_is(lang, "shell"@) {
            assert(lowers_to(lang[0], "nginx"@[0]));
            assert(lowers_to(lang[0], "shell"@[0]));
        }
    }
    reveal_strlit("sql");
    reveal_strlit("json");
    reveal_strlit("yaml");
    reveal_strlit("yml");
    reveal_strlit("toml");
    reveal_strlit("html");
    reveal_strlit("css");
    reveal_strlit("md");
    reveal_strlit("markdown");
    reveal_strlit("rb");
    reveal_strlit("ruby");
    reveal_strlit("php");
    reveal_strlit("swift");
    assert(!lower_is(lang, "swift"@)) by {
        if lower_is(lang, "swift"@) {
            assert(lowers_to(lang[0], "nginx"@[0]));
            assert(lowers_to(lang[0], "swift"@[0]));
        }
    }
    reveal_strlit("kt");
    reveal_strlit("kotlin");
    reveal_strlit("scala");
    assert(!lower_is(lang, "scala"@)) by {
        if lower_is(lang, "scala"@) {
            assert(lowers_to(lang[0], "nginx"@[0]));
            assert(lowers_to(lang[0], "scala"@[0]));
        }
    }
    reveal_strlit("r");
    reveal_strlit("lua");
    reveal_strlit("haskell");
    reveal_strlit("hs");
    reveal_strlit("dart");
    reveal_strlit("elixir");
    reveal_strlit("ex");
    reveal_strlit("xml");
    reveal_strlit("dockerfile");
    reveal_strlit("docker");
    reveal_strlit("makefile");
    reveal_strlit("make");
}

proof fn lemma_language_diff(lang: Seq<char>)
    requires
        lower_is(lang, "diff"@),
    ensures
        syntax_for(lang) == Some("Diff"@),
{
    reveal_strlit("diff");
    reveal_strlit("js");
    reveal_strlit("javascript");
    reveal_strlit("ts");
    reveal_strlit("typescript");
    reveal_strlit("py");
    reveal_strlit("python");
    reveal_strlit("rs");
    reveal_strlit("rust");
    assert(!lower_is(lang, "rust"@)) by {
        if lower_is(lang, "rust"@) {
            assert(lowers_to(lang[0], "diff"@[0]));
            assert(lowers_to(lang[0], "rust"@[0]));
        }
    }
    reveal_strlit("go");
    reveal_strlit("golang");
    reveal_strlit("c");
    reveal_strlit("cpp");
    reveal_strlit("c++");
    reveal_strlit("java");
    assert(!lower_is(lang, "java"@)) by {
        if lower_is(lang, "java"@) {
            assert(lowers_to(lang[0], "diff"@[0]));
            assert(lowers_to(lang[0], "java"@[0]));
        }
    }
    reveal_strlit("sh");
    reveal_strlit("bash");
    assert(!lower_is(lang, "bash"@)) by {
        if lower_is(lang, "bash"@) {
            assert(lowers_to(lang[0], "diff"@[0]));
            assert(lowers_to(lang[0], "bash"@[0]));
        }
    }
    reveal_strlit("shell");
    reveal_strlit("sql");
    reveal_strlit("json");
    assert(!lower_is(lang, "json"@)) by {
        if lower_is(lang, "json"@) {
            assert(lowers_to(lang[0], "diff"@[0]));
            assert(lowers_to(lang[0], "json"@[0]));
        }
    }
    reveal_strlit("yaml");
    assert(!lower_is(lang, "yaml"@)) by {
        if lower_is(lang, "yaml"@) {
            assert(lowers_to(lang[0], "diff"@[0]));
            assert(lowers_to(lang[0], "yaml"@[0]));
        }
    }
    reveal_strlit("yml");
    reveal_strlit("toml");
    assert(!lower_is(lang, "toml"@)) by {
        if lower_is(lang, "toml"@) {
            assert(lowers_to(lang[0], "diff"@[0]));
            assert(lowers_to(lang[0], "toml"@[0]));
        }
    }
    reveal_strlit("html");
    assert(!lower_is(lang, "html"@)) by {
        if lower_is(lang, "html"@) {
            assert(lowers_to(lang[0], "diff"@[0]));
            assert(lowers_to(lang[0], "html"@[0]));
        }
    }
    reveal_strlit("css");
    reveal_strlit("md");
    reveal_strlit("markdown");
    reveal_strlit("rb");
    reveal_strlit("ruby");
    assert(!lower_is(lang, "ruby"@)) by {
        if lower_is(lang, "ruby"@) {
            assert(lowers_to(lang[0], "diff"@[0]));
            assert(lowers_to(lang[0], "ruby"@[0]));
        }
    }
    reveal_strlit("php");
    reveal_strlit("swift");
    reveal_strlit("kt");
    reveal_strlit("kotlin");
    reveal_strlit("scala");
    reveal_strlit("r");
    reveal_strlit("lua");
    reveal_strlit("haskell");
    reveal_strlit("hs");
    reveal_strlit("dart");
    assert(!lower_is(lang, "dart"@)) by {
        if lower_is(lang, "dart"@) {
            assert(lowers_to(lang[1], "diff"@[1]));
            assert(lowers_to(lang[1], "dart"@[1]));
        }
    }
    reveal_strlit("elixir");
    reveal_strlit("ex");
    reveal_strlit("xml");
    reveal_strlit("dockerfile");
    reveal_strlit("docker");
    reveal_strlit("makefile");
    reveal_strlit("make");
    assert(!lower_is(lang, "make"@)) by {
        if lower_is(lang, "make"@) {
            assert(lowers_to(lang[0], "diff"@[0]));
            assert(lowers_to(lang[0], "make"@[0]));
        }
    }
    reveal_strlit("nginx");
}

proof fn lemma_language_patch(lang: Seq<char>)
    requires
        lower_is(lang, "patch"@),
    ensures
        syntax_for(lang) == Some("Diff"@),
{
    reveal_strlit("patch");
    reveal_strlit("js");
    reveal_strlit("javascript");
    reveal_strlit("ts");
    reveal_strlit("typescript");
    reveal_strlit("py");
    reveal_strlit("python");
    reveal_strlit("rs");
    reveal_strlit("rust");
    reveal_strlit("go");
    reveal_strlit("golang");
    reveal_strlit("c");
    reveal_strlit("cpp");
    reveal_strlit("c++");
    reveal_strlit("java");
    reveal_strlit("sh");
    reveal_strlit("bash");
    reveal_strlit("shell");
    assert(!lower_is(lang, "shell"@)) by {
        if lower_is(lang, "shell"@) {
            assert(lowers_to(lang[0], "patch"@[0]));
            assert(lowers_to(lang[0], "shell"@[0]));
        }
    }
    reveal_strlit("sql");
    reveal_strlit("json");
    reveal_strlit("yaml");
    reveal_strlit("yml");
    reveal_strlit("toml");
    reveal_strlit("html");
    reveal_strlit("css");
    reveal_strlit("md");
    reveal_strlit("markdown");
    reveal_strlit("rb");
    reveal_strlit("ruby");
    reveal_strlit("php");
    reveal_strlit("swift");
    assert(!lower_is(lang, "swift"@)) by {
        if lower_is(lang, "swift"@) {
            assert(lowers_to(lang[0], "patch"@[0]));
            assert(lowers_to(lang[0], "swift"@[0]));
        }
    }
    reveal_strlit("kt");
    reveal_strlit("kotlin");
    reveal_strlit("scala");
    assert(!lower_is(lang, "scala"@)) by {
        if lower_is(lang, "scala"@) {
            assert(lowers_to(lang[0], "patch"@[0]));
            assert(lowers_to(lang[0], "scala"@[0]));
        }
    }
    reveal_strlit("r");
    reveal_strlit("lua");
    reveal_strlit("haskell");
    reveal_strlit("hs");
    reveal_strlit("dart");
    reveal_strlit("elixir");
    reveal_strlit("ex");
    reveal_strlit("xml");
    reveal_strlit("dockerfile");
    reveal_strlit("docker");
    reveal_strlit("makefile");
    reveal_strlit("make");
    reveal_strlit("nginx");
    assert(!lower_is(lang, "nginx"@)) by {
        if lower_is(lang, "nginx"@) {
            assert(lowers_to(lang[0], "patch"@[0]));
            assert(lowers_to(lang[0], "nginx"@[0]));
        }
    }
    reveal_strlit("diff");
}

/// Every language name that has a syntax finds it, written in any case
/// (`js`, `JS` and `JavaScript` all give JavaScript, `rs` and `Rust` give
/// Rust, and so on).
pub proof fn lemma_language_names(lang: Seq<char>)
    ensures
        lower_is(lang, "js"@) ==> syntax_for(lang) == Some("JavaScript"@),
        lower_is(lang, "javascript"@) ==> syntax_for(lang) == Some("JavaScript"@),
        lower_is(lang, "ts"@) ==> syntax_for(lang) == Some("TypeScript"@),
        lower_is(lang, "typescript"@) ==> syntax_for(lang) == Some("TypeScript"@),
        lower_is(lang, "py"@) ==> syntax_for(lang) == Some("Python"@),
        lower_is(lang, "python"@) ==> syntax_for(lang) == Some("Python"@),
        lower_is(lang, "rs"@) ==> syntax_for(lang) == Some("Rust"@),
        lower_is(lang, "rust"@) ==> syntax_for(lang) == Some("Rust"@),
        lower_is(lang, "go"@) ==> syntax_for(lang) == Some("Go"@),
        lower_is(lang, "golang"@) ==> syntax_for(lang) == Some("Go"@),
        lower_is(lang, "c"@) ==> syntax_for(lang) == Some("C"@),
        lower_is(lang, "cpp"@) ==> syntax_for(lang) == Some("C++"@),
        lower_is(lang, "c++"@) ==> syntax_for(lang) == Some("C++"@),
        lower_is(lang, "java"@) ==> syntax_for(lang) == Some("Java"@),
        lower_is(lang, "sh"@) ==> syntax_for(lang) == Some("Bash"@),
        lower_is(lang, "bash"@) ==> syntax_for(lang) == Some("Bash"@),
        lower_is(lang, "shell"@) ==> syntax_for(lang) == Some("Bash"@),
        lower_is(lang, "sql"@) ==> syntax_for(lang) == Some("SQL"@),
        lower_is(lang, "json"@) ==> syntax_for(lang) == Some("JSON"@),
        lower_is(lang, "yaml"@) ==> syntax_for(lang) == Some("YAML"@),
        lower_is(lang, "yml"@) ==> syntax_for(lang) == Some("YAML"@),
        lower_is(lang, "toml"@) ==> syntax_for(lang) == Some("TOML"@),
        lower_is(lang, "html"@) ==> syntax_for(lang) == Some("HTML"@),
        lower_is(lang, "css"@) ==> syntax_for(lang) == Some("CSS"@),
        lower_is(lang, "md"@) ==> syntax_for(lang) == Some("Markdown"@),
        lower_is(lang, "markdown"@) ==> syntax_for(lang) == Some("Markdown"@),
        lower_is(lang, "rb"@) ==> syntax_for(lang) == Some("Ruby"@),
        lower_is(lang, "ruby"@) ==> syntax_for(lang) == Some("Ruby"@),
        lower_is(lang, "php"@) ==> syntax_for(lang) == Some("PHP"@),
        lower_is(lang, "swift"@) ==> syntax_for(lang) == Some("Swift"@),
        lower_is(lang, "kt"@) ==> syntax_for(lang) == Some("Kotlin"@),
        lower_is(lang, "kotlin"@) ==> syntax_for(lang) == Some("Kotlin"@),
        lower_is(lang, "scala"@) ==> syntax_for(lang) == Some("Scala"@),
        lower_is(lang, "r"@) ==> syntax_for(lang) == Some("R"@),
        lower_is(lang, "lua"@) ==> syntax_for(lang) == Some("Lua"@),
        lower_is(lang, "haskell"@) ==> syntax_for(lang) == Some("Haskell"@),
        lower_is(lang, "hs"@) ==> syntax_for(lang) == Some("Haskell"@),
        lower_is(lang, "dart"@) ==> syntax_for(lang) == Some("Dart"@),
        lower_is(lang, "elixir"@) ==> syntax_for(lang) == Some("Elixir"@),
        lower_is(lang, "ex"@) ==> syntax_for(lang) == Some("Elixir"@),
        lower_is(lang, "xml"@) ==> syntax_for(lang) == Some("XML"@),
        lower_is(lang, "dockerfile"@) ==> syntax_for(lang) == Some("Dockerfile"@),
        lower_is(lang, "docker"@) ==> syntax_for(lang) == Some("Dockerfile"@),
        lower_is(lang, "makefile"@) ==> syntax_for(lang) == Some("Makefile"@),
        lower_is(lang, "make"@) ==> syntax_for(lang) == Some("Makefile"@),
        lower_is(lang, "nginx"@) ==> syntax_for(lang) == Some("Nginx"@),
        lower_is(lang, "diff"@) ==> syntax_for(lang) == Some("Diff"@),
        lower_is(lang, "patch"@) ==> syntax_for(lang) == Some("Diff"@),
{
    if lower_is(lang, "js"@) {
        lemma_language_js(lang);
    }
    if lower_is(lang, "javascript"@) {
        lemma_language_javascript(lang);
    }
    if lower_is(lang, "ts"@) {
        lemma_language_ts(lang);
    }
    if lower_is(lang, "typescript"@) {
        lemma_language_typescript(lang);
    }
    if lower_is(lang, "py"@) {
        lemma_language_py(lang);
    }
    if lower_is(lang, "python"@) {
        lemma_language_python(lang);
    }
    if lower_is(lang, "rs"@) {
        lemma_language_rs(lang);
    }
    if lower_is(lang, "rust"@) {
        lemma_language_rust(lang);
    }
    if lower_is(lang, "go"@) {
        lemma_language_go(lang);
    }
    if lower_is(lang, "golang"@) {
        lemma_language_golang(lang);
    }
    if lower_is(lang, "c"@) {
        lemma_language_c(lang);
    }
    if lower_is(lang, "cpp"@) {
        lemma_language_cpp(lang);
    }
    if lower_is(lang, "c++"@) {
        lemma_language_cplusplus(lang);
    }
    if lower_is(lang, "java"@) {
        lemma_language_java(lang);
    }
    if lower_is(lang, "sh"@) {
        lemma_language_sh(lang);
    }
    if lower_is(lang, "bash"@) {
        lemma_language_bash(lang);
    }
    if lower_is(lang, "shell"@) {
        lemma_language_shell(lang);
    }
    if lower_is(lang, "sql"@) {
        lemma_language_sql(lang);
    }
    if lower_is(lang, "json"@) {
        lemma_language_json(lang);
    }
    if lower_is(lang, "yaml"@) {
        lemma_language_yaml(lang);
    }
    if lower_is(lang, "yml"@) {
        lemma_language_yml(lang);
    }
    if lower_is(lang, "toml"@) {
        lemma_language_toml(lang);
    }
    if lower_is(lang, "html"@) {
        lemma_language_html(lang);
    }
    if lower_is(lang, "css"@) {
        lemma_language_css(lang);
    }
    if lower_is(lang, "md"@) {
        lemma_language_md(lang);
    }
    if lower_is(lang, "markdown"@) {
        lemma_language_markdown(lang);
    }
    if lower_is(lang, "rb"@) {
        lemma_language_rb(lang);
    }
    if lower_is(lang, "ruby"@) {
        lemma_language_ruby(lang);
    }
    if lower_is(lang, "php"@) {
        lemma_language_php(lang);
    }
    if lower_is(lang, "swift"@) {
        lemma_language_swift(lang);
    }
    if lower_is(lang, "kt"@) {
        lemma_language_kt(lang);
    }
    if lower_is(lang, "kotlin"@) {
        lemma_language_kotlin(lang);
    }
    if lower_is(lang, "scala"@) {
        lemma_language_scala(lang);
    }
    if lower_is(lang, "r"@) {
        lemma_language_r(lang);
    }
    if lower_is(lang, "lua"@) {
        lemma_language_lua(lang);
    }
    if lower_is(lang, "haskell"@) {
        lemma_language_haskell(lang);
    }
    if lower_is(lang, "hs"@) {
        lemma_language_hs(lang);
    }
    if lower_is(lang, "dart"@) {
        lemma_language_dart(lang);
    }
    if lower_is(lang, "elixir"@) {
        lemma_language_elixir(lang);
    }
    if lower_is(lang, "ex"@) {
        lemma_language_ex(lang);
    }
    if lower_is(lang, "xml"@) {
        lemma_language_xml(lang);
    }
    if lower_is(lang, "dockerfile"@) {
        lemma_language_dockerfile(lang);
    }
    if lower_is(lang, "docker"@) {
        lemma_language_docker(lang);
    }
    if lower_is(lang, "makefile"@) {
        lemma_language_makefile(lang);
    }
    if lower_is(lang, "make"@) {
        lemma_language_make(lang);
    }
    if lower_is(lang, "nginx"@) {
        lemma_language_nginx(lang);
    }
    if lower_is(lang, "diff"@) {
        lemma_language_diff(lang);
    }
    if lower_is(lang, "patch"@) {
        lemma_language_patch(lang);
    }
}

} // verus!
