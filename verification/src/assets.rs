//! Remote and local resources referenced by the HTML: which `<link>` and
//! `<img>` tags are fetched, how a fetched style sheet or image is spliced
//! back into the page, what a downloaded file is called in the cache, and
//! which warning a failed fetch leaves. The fetching itself is the
//! caller's.
use vstd::prelude::*;
use crate::diagnostics::Warning;
use crate::document::insert_at;
use crate::network::{AssetLimits, DownloadError, download_error_view};
use crate::text::{
    chars_of, string_of, push_all, push_str, push_range, occurs_at, occurs_at_exec, find_from,
    find_from_exec, lemma_find_from, rfind_before, rfind_exec, replace_all, replace_all_exec,
    contains_seq, contains_exec, decimal, decimal_exec,
};

verus! {

// ---------------------------------------------------------------------------
// Tag patterns
// ---------------------------------------------------------------------------

/// `<link>` tags with an absolute `http(s)` `href`.
pub const REMOTE_LINK_PATTERN: &'static str = "(?i)<link\\b[^>]*\\bhref\\s*=\\s*[\"'](https?://[^\"']+)[\"'][^>]*>";

/// `<img>` tags with an absolute `http(s)` `src`.
pub const REMOTE_IMG_PATTERN: &'static str = "(?i)<img\\b[^>]*?\\bsrc\\s*=\\s*[\"'](https?://[^\"']+)[\"'][^>]*>";

/// `<link rel="stylesheet">` tags whose `href` names a `.css` file.
pub const LOCAL_LINK_PATTERN: &'static str = "(?i)<link\\b[^>]*?\\brel\\s*=\\s*[\"']stylesheet[\"'][^>]*?\\bhref\\s*=\\s*[\"']([^\"']+\\.css)[\"'][^>]*>";

/// The successive non-overlapping matches of a regular expression over a
/// text, each as the matched text and the text of its first group.
pub uninterp spec fn regex_matches(pattern: Seq<char>, text: Seq<char>) -> Seq<(Seq<char>, Option<Seq<char>>)>;

pub open spec fn match_views(v: Seq<(String, Option<String>)>) -> Seq<(Seq<char>, Option<Seq<char>>)> {
    v.map_values(|m: (String, Option<String>)| (m.0@, match m.1 { Some(g) => Some(g@), None => None }))
}

/// Runs `regex::Regex::captures_iter` for a pattern over a text and
/// returns each match's text with its first capture group. Claimed: the
/// list is the named `regex_matches` of the pattern and the text. An
/// invalid pattern yields no matches.
#[verifier::external_body]
fn find_matches(pattern: &str, text: &str) -> (r: Vec<(String, Option<String>)>)
    ensures
        match_views(r@) == regex_matches(pattern@, text@),
{
    match regex::Regex::new(pattern) {
        Ok(re) => re
            .captures_iter(text)
            .map(|c| (c[0].to_string(), c.get(1).map(|g| g.as_str().to_string())))
            .collect(),
        Err(_) => Vec::new(),
    }
}

/// A tag found in the page and the URL or path it references.
#[derive(Debug)]
pub struct TagRef {
    pub tag: String,
    pub target: String,
}

pub open spec fn ref_views(v: Seq<TagRef>) -> Seq<(Seq<char>, Seq<char>)> {
    v.map_values(|t: TagRef| (t.tag@, t.target@))
}

/// The matches that have a first group, as (tag, reference) pairs.
pub open spec fn tag_refs(ms: Seq<(Seq<char>, Option<Seq<char>>)>) -> Seq<(Seq<char>, Seq<char>)>
    decreases ms.len(),
{
    if ms.len() == 0 {
        Seq::empty()
    } else {
        tag_refs(ms.drop_last()) + match ms.last().1 {
            Some(g) => seq![(ms.last().0, g)],
            None => Seq::empty(),
        }
    }
}

fn tag_refs_of(pattern: &str, html: &str) -> (r: Vec<TagRef>)
    ensures
        ref_views(r@) == tag_refs(regex_matches(pattern@, html@)),
{
    let ms = find_matches(pattern, html);
    let mut out: Vec<TagRef> = Vec::new();
    let mut i: usize = 0;
    while i < ms.len()
        invariant
            i <= ms.len(),
            ref_views(out@) == tag_refs(match_views(ms@).take(i as int)),
        decreases ms.len() - i,
    {
        proof {
            assert(match_views(ms@).take(i + 1).drop_last() == match_views(ms@).take(i as int));
        }
        let ghost before = out@;
        match &ms[i].1 {
            Some(g) => {
                let t = TagRef { tag: string_of(&chars_of(ms[i].0.as_str())), target: string_of(&chars_of(g.as_str())) };
                out.push(t);
                assert(ref_views(out@) =~= ref_views(before).push((ms@[i as int].0@, g@)));
            },
            None => {},
        }
        i = i + 1;
    }
    assert(match_views(ms@).take(ms.len() as int) == match_views(ms@));
    out
}

// ---------------------------------------------------------------------------
// Case-insensitive search
// ---------------------------------------------------------------------------

/// `c` lower-cases to the ASCII character `p`: `p` itself, its capital, or
/// the Kelvin sign for `k`.
pub open spec fn lowers_to(c: char, p: char) -> bool {
    c == p || ('A' <= c <= 'Z' && (c as u32) + 32 == (p as u32)) || (p == 'k' && c == '\u{212A}')
}

/// The lower-cased text of `s` has the lower-case ASCII `p` at `i`.
pub open spec fn lower_occurs_at(s: Seq<char>, i: int, p: Seq<char>) -> bool {
    &&& 0 <= i
    &&& i + p.len() <= s.len()
    &&& forall|j: int| 0 <= j < p.len() ==> lowers_to(#[trigger] s[i + j], p[j])
}

/// `s.to_lowercase()` contains `p` (for a lower-case ASCII `p` that does
/// not end in `i`: the only lower-case mapping onto more than one
/// character, `İ` to `i̇`, then cannot take part in a match).
pub open spec fn lower_contains(s: Seq<char>, p: Seq<char>) -> bool {
    exists|i: int| lower_occurs_at(s, i, p)
}

pub fn lowers_to_exec(c: char, p: char) -> (b: bool)
    ensures
        b == lowers_to(c, p),
{
    c == p || ('A' <= c && c <= 'Z' && (c as u32) + 32 == (p as u32)) || (p == 'k' && c == '\u{212A}')
}

fn lower_occurs_at_exec(s: &Vec<char>, i: usize, p: &Vec<char>) -> (b: bool)
    ensures
        b == lower_occurs_at(s@, i as int, p@),
{
    if i > s.len() || p.len() > s.len() - i {
        return false;
    }
    let mut j: usize = 0;
    while j < p.len()
        invariant
            j <= p.len(),
            i + p.len() <= s.len(),
            forall|k: int| 0 <= k < j ==> lowers_to(#[trigger] s@[i + k], p@[k]),
        decreases p.len() - j,
    {
        if !lowers_to_exec(s[i + j], p[j]) {
            assert(!lowers_to(s@[i + j as int], p@[j as int]));
            return false;
        }
        j = j + 1;
    }
    true
}

fn lower_contains_exec(s: &Vec<char>, p: &str) -> (b: bool)
    ensures
        b == lower_contains(s@, p@),
{
    let pv = chars_of(p);
    let mut i: usize = 0;
    while i < s.len()
        invariant
            i <= s.len(),
            pv@ == p@,
            forall|k: int| 0 <= k < i ==> !lower_occurs_at(s@, k, p@),
        decreases s.len() - i,
    {
        if lower_occurs_at_exec(s, i, &pv) {
            return true;
        }
        i = i + 1;
    }
    if lower_occurs_at_exec(s, i, &pv) {
        return true;
    }
    assert forall|k: int| !lower_occurs_at(s@, k, p@) by {
        if 0 <= k <= i {
        }
    }
    false
}

// ---------------------------------------------------------------------------
// Remote style sheets
// ---------------------------------------------------------------------------

/// A style sheet link that is fetched: it says `stylesheet`, and neither
/// `alternate` nor `media="print"` (compared lower-cased).
pub open spec fn fetched_stylesheet(tag: Seq<char>) -> bool {
    lower_contains(tag, "stylesheet"@) && !lower_contains(tag, "alternate"@)
        && !lower_contains(tag, "media=\"print\""@)
}

/// The references whose tags pass `fetched_stylesheet`, in order.
pub open spec fn fetched_stylesheets(refs: Seq<(Seq<char>, Seq<char>)>) -> Seq<(Seq<char>, Seq<char>)>
    decreases refs.len(),
{
    if refs.len() == 0 {
        Seq::empty()
    } else {
        fetched_stylesheets(refs.drop_last()) + if fetched_stylesheet(refs.last().0) {
            seq![refs.last()]
        } else {
            Seq::empty()
        }
    }
}

fn copy_ref(t: &TagRef) -> (r: TagRef)
    ensures
        r.tag@ == t.tag@,
        r.target@ == t.target@,
{
    TagRef { tag: string_of(&chars_of(t.tag.as_str())), target: string_of(&chars_of(t.target.as_str())) }
}

/// Keeps the links that are style sheets, not alternates and not for print.
pub fn select_remote_stylesheets(links: &[TagRef]) -> (r: Vec<TagRef>)
    ensures
        ref_views(r@) == fetched_stylesheets(ref_views(links@)),
{
    let mut out: Vec<TagRef> = Vec::new();
    let mut i: usize = 0;
    while i < links.len()
        invariant
            i <= links.len(),
            ref_views(out@) == fetched_stylesheets(ref_views(links@).take(i as int)),
        decreases links.len() - i,
    {
        proof {
            assert(ref_views(links@).take(i + 1).drop_last() == ref_views(links@).take(i as int));
        }
        let tv = chars_of(links[i].tag.as_str());
        let keep = lower_contains_exec(&tv, "stylesheet") && !lower_contains_exec(&tv, "alternate")
            && !lower_contains_exec(&tv, "media=\"print\"");
        let ghost before = out@;
        if keep {
            out.push(copy_ref(&links[i]));
            assert(ref_views(out@) =~= ref_views(before).push(ref_views(links@)[i as int]));
        }
        i = i + 1;
    }
    assert(ref_views(links@).take(links.len() as int) == ref_views(links@));
    out
}

/// The remote style sheets a page links to, in order.
pub fn remote_stylesheet_links(html: &str) -> (r: Vec<TagRef>)
    ensures
        ref_views(r@) == fetched_stylesheets(tag_refs(regex_matches(REMOTE_LINK_PATTERN@, html@))),
{
    let refs = tag_refs_of(REMOTE_LINK_PATTERN, html);
    select_remote_stylesheets(refs.as_slice())
}

/// The document with `block` inserted before `</head>`, else before
/// `<body`, else at the end.
pub open spec fn with_block_in_head_or_body(html: Seq<char>, block: Seq<char>) -> Seq<char> {
    match find_from(html, "</head>"@, 0) {
        Some(p) => insert_at(html, p, block),
        None => match find_from(html, "<body"@, 0) {
            Some(p) => insert_at(html, p, block),
            None => html + block,
        },
    }
}

/// The document with `block` inserted before `</head>`, else at the end.
pub open spec fn with_block_in_head(html: Seq<char>, block: Seq<char>) -> Seq<char> {
    match find_from(html, "</head>"@, 0) {
        Some(p) => insert_at(html, p, block),
        None => html + block,
    }
}

/// `s` with its first occurrence of `from` replaced by `to`
/// (`str::replacen(from, to, 1)`).
pub open spec fn replace_first(s: Seq<char>, from: Seq<char>, to: Seq<char>) -> Seq<char> {
    match find_from(s, from, 0) {
        Some(p) => s.take(p) + to + s.skip(p + from.len()),
        None => s,
    }
}

fn insert_chars(v: &Vec<char>, pos: usize, t: &Vec<char>) -> (r: Vec<char>)
    requires
        pos <= v.len(),
    ensures
        r@ == insert_at(v@, pos as int, t@),
{
    let mut out: Vec<char> = Vec::new();
    push_range(&mut out, v, 0, pos);
    push_all(&mut out, t);
    push_range(&mut out, v, pos, v.len());
    assert(out@ =~= insert_at(v@, pos as int, t@));
    out
}

fn replace_first_chars(v: &Vec<char>, from: &Vec<char>, to: &Vec<char>) -> (r: Vec<char>)
    ensures
        r@ == replace_first(v@, from@, to@),
{
    match find_from_exec(v, from, 0) {
        Some(p) => {
            proof { lemma_find_from(v@, from@, 0); }
            let mut out: Vec<char> = Vec::new();
            push_range(&mut out, v, 0, p);
            push_all(&mut out, to);
            push_range(&mut out, v, p + from.len(), v.len());
            assert(out@ =~= replace_first(v@, from@, to@));
            out
        },
        None => v.clone(),
    }
}

/// Replaces the first occurrence of `from` in `s` by `to`.
pub fn replace_first_str(s: &str, from: &str, to: &str) -> (r: String)
    ensures
        r@ == replace_first(s@, from@, to@),
{
    let v = chars_of(s);
    let f = chars_of(from);
    let t = chars_of(to);
    string_of(&replace_first_chars(&v, &f, &t))
}

/// The page after a remote style sheet was fetched: its text in a
/// `<style>` block (labelled with its URL) before `</head>`, else before
/// `<body`, else at the end, and its `<link>` tag replaced by a comment.
pub open spec fn remote_css_embedded(html: Seq<char>, tag: Seq<char>, url: Seq<char>, css: Seq<char>) -> Seq<char> {
    let block = "\n<style>\n/* Source: "@ + url + " */\n"@ + css + "\n</style>\n"@;
    replace_first(with_block_in_head_or_body(html, block), tag, "<!-- downloaded: "@ + url + " -->"@)
}

pub fn embed_remote_css(html: &str, tag: &str, url: &str, css: &str) -> (r: String)
    ensures
        r@ == remote_css_embedded(html@, tag@, url@, css@),
{
    let v = chars_of(html);
    let mut block: Vec<char> = Vec::new();
    push_str(&mut block, "\n<style>\n/* Source: ");
    push_str(&mut block, url);
    push_str(&mut block, " */\n");
    push_str(&mut block, css);
    push_str(&mut block, "\n</style>\n");
    let head = chars_of("</head>");
    let body = chars_of("<body");
    let placed = match find_from_exec(&v, &head, 0) {
        Some(p) => {
            proof { lemma_find_from(v@, head@, 0); }
            insert_chars(&v, p, &block)
        },
        None => match find_from_exec(&v, &body, 0) {
            Some(p) => {
                proof { lemma_find_from(v@, body@, 0); }
                insert_chars(&v, p, &block)
            },
            None => {
                let mut w = v.clone();
                push_all(&mut w, &block);
                w
            },
        },
    };
    let t = chars_of(tag);
    let mut c: Vec<char> = Vec::new();
    push_str(&mut c, "<!-- downloaded: ");
    push_str(&mut c, url);
    push_str(&mut c, " -->");
    string_of(&replace_first_chars(&placed, &t, &c))
}

// ---------------------------------------------------------------------------
// Local style sheets
// ---------------------------------------------------------------------------

/// Local style sheets: references that are not `http://` or `https://`.
pub open spec fn local_refs(refs: Seq<(Seq<char>, Seq<char>)>) -> Seq<(Seq<char>, Seq<char>)>
    decreases refs.len(),
{
    if refs.len() == 0 {
        Seq::empty()
    } else {
        local_refs(refs.drop_last()) + if occurs_at(refs.last().1, 0, "http://"@) || occurs_at(refs.last().1, 0, "https://"@) {
            Seq::empty()
        } else {
            seq![refs.last()]
        }
    }
}

/// The local style sheets a page links to, in order.
pub fn local_stylesheet_links(html: &str) -> (r: Vec<TagRef>)
    ensures
        ref_views(r@) == local_refs(tag_refs(regex_matches(LOCAL_LINK_PATTERN@, html@))),
{
    let refs = tag_refs_of(LOCAL_LINK_PATTERN, html);
    let http = chars_of("http://");
    let https = chars_of("https://");
    let mut out: Vec<TagRef> = Vec::new();
    let mut i: usize = 0;
    while i < refs.len()
        invariant
            i <= refs.len(),
            http@ == "http://"@,
            https@ == "https://"@,
            ref_views(out@) == local_refs(ref_views(refs@).take(i as int)),
        decreases refs.len() - i,
    {
        proof {
            assert(ref_views(refs@).take(i + 1).drop_last() == ref_views(refs@).take(i as int));
        }
        let hv = chars_of(refs[i].target.as_str());
        let remote = occurs_at_exec(&hv, 0, &http) || occurs_at_exec(&hv, 0, &https);
        let ghost before = out@;
        if !remote {
            out.push(copy_ref(&refs[i]));
            assert(ref_views(out@) =~= ref_views(before).push(ref_views(refs@)[i as int]));
        }
        i = i + 1;
    }
    assert(ref_views(refs@).take(refs.len() as int) == ref_views(refs@));
    out
}

/// The page after a local style sheet was read: its text in a `<style>`
/// block (labelled with its path) before `</head>`, else at the end, and its
/// `<link>` tag replaced by a comment.
pub open spec fn local_css_embedded(html: Seq<char>, tag: Seq<char>, href: Seq<char>, css: Seq<char>) -> Seq<char> {
    let block = "\n<style>\n/* embedded from: "@ + href + " */\n"@ + css + "\n</style>\n"@;
    replace_first(with_block_in_head(html, block), tag, "<!-- embedded: "@ + href + " -->"@)
}

pub fn embed_local_css(html: &str, tag: &str, href: &str, css: &str) -> (r: String)
    ensures
        r@ == local_css_embedded(html@, tag@, href@, css@),
{
    let v = chars_of(html);
    let mut block: Vec<char> = Vec::new();
    push_str(&mut block, "\n<style>\n/* embedded from: ");
    push_str(&mut block, href);
    push_str(&mut block, " */\n");
    push_str(&mut block, css);
    push_str(&mut block, "\n</style>\n");
    let head = chars_of("</head>");
    let placed = match find_from_exec(&v, &head, 0) {
        Some(p) => {
            proof { lemma_find_from(v@, head@, 0); }
            insert_chars(&v, p, &block)
        },
        None => {
            let mut w = v.clone();
            push_all(&mut w, &block);
            w
        },
    };
    let t = chars_of(tag);
    let mut c: Vec<char> = Vec::new();
    push_str(&mut c, "<!-- embedded: ");
    push_str(&mut c, href);
    push_str(&mut c, " -->");
    string_of(&replace_first_chars(&placed, &t, &c))
}


// ---------------------------------------------------------------------------
// Remote images
// ---------------------------------------------------------------------------

/// References that are not `data:` URIs.
pub open spec fn non_data_refs(refs: Seq<(Seq<char>, Seq<char>)>) -> Seq<(Seq<char>, Seq<char>)>
    decreases refs.len(),
{
    if refs.len() == 0 {
        Seq::empty()
    } else {
        non_data_refs(refs.drop_last()) + if occurs_at(refs.last().1, 0, "data:"@) {
            Seq::empty()
        } else {
            seq![refs.last()]
        }
    }
}

/// The remote images of a page, in order.
pub fn remote_image_refs(html: &str) -> (r: Vec<TagRef>)
    ensures
        ref_views(r@) == non_data_refs(tag_refs(regex_matches(REMOTE_IMG_PATTERN@, html@))),
{
    let refs = tag_refs_of(REMOTE_IMG_PATTERN, html);
    let data = chars_of("data:");
    let mut out: Vec<TagRef> = Vec::new();
    let mut i: usize = 0;
    while i < refs.len()
        invariant
            i <= refs.len(),
            data@ == "data:"@,
            ref_views(out@) == non_data_refs(ref_views(refs@).take(i as int)),
        decreases refs.len() - i,
    {
        proof {
            assert(ref_views(refs@).take(i + 1).drop_last() == ref_views(refs@).take(i as int));
        }
        let uv = chars_of(refs[i].target.as_str());
        let ghost before = out@;
        if !occurs_at_exec(&uv, 0, &data) {
            out.push(copy_ref(&refs[i]));
            assert(ref_views(out@) =~= ref_views(before).push(ref_views(refs@)[i as int]));
        }
        i = i + 1;
    }
    assert(ref_views(refs@).take(refs.len() as int) == ref_views(refs@));
    out
}

/// The bundle name of the `index`-th downloaded image.
pub open spec fn image_name(index: nat) -> Seq<char> {
    "txp-remote-"@ + decimal(index) + ".png"@
}

pub fn remote_image_name(index: usize) -> (r: String)
    ensures
        r@ == image_name(index as nat),
{
    let mut out: Vec<char> = Vec::new();
    push_str(&mut out, "txp-remote-");
    push_all(&mut out, &decimal_exec(index));
    push_str(&mut out, ".png");
    string_of(&out)
}

/// A tag that sets a width or a height itself.
pub open spec fn has_explicit_size(tag: Seq<char>) -> bool {
    contains_seq(tag, "width="@) || contains_seq(tag, "width:"@) || contains_seq(tag, "height="@)
        || contains_seq(tag, "height:"@)
}

/// The image tag after download: the URL replaced by the bundle name, and,
/// when the tag sets no size and the image's size can be read, a style with
/// that size before the tag's last `>`.
pub open spec fn rewritten_image_tag(tag: Seq<char>, url: Seq<char>, name: Seq<char>, data: Seq<u8>) -> Seq<char> {
    let t = replace_all(tag, url, name);
    if has_explicit_size(tag) {
        t
    } else {
        match crate::network::image_dimensions_spec(data) {
            Some((w, h)) => match rfind_before(t, ">"@, t.len() as int) {
                Some(g) => insert_at(t, g, " style=\"width:"@ + decimal(w as nat) + "px;height:"@
                    + decimal(h as nat) + "px\""@),
                None => t,
            },
            None => t,
        }
    }
}

/// A last occurrence found before `i` starts before `i`.
proof fn lemma_rfind_bound(s: Seq<char>, p: Seq<char>, i: int)
    ensures
        rfind_before(s, p, i) matches Some(j) ==> 0 <= j < i && occurs_at(s, j, p),
    decreases i,
{
    if i > 0 && !occurs_at(s, i - 1, p) {
        lemma_rfind_bound(s, p, i - 1);
    }
}

pub fn rewrite_image_tag(tag: &str, url: &str, name: &str, data: &[u8]) -> (r: String)
    requires
        data@.len() <= isize::MAX,
    ensures
        r@ == rewritten_image_tag(tag@, url@, name@, data@),
{
    let tv = chars_of(tag);
    let uv = chars_of(url);
    let nv = chars_of(name);
    let t = replace_all_exec(&tv, &uv, &nv);
    let sized = contains_exec(&tv, &chars_of("width=")) || contains_exec(&tv, &chars_of("width:"))
        || contains_exec(&tv, &chars_of("height=")) || contains_exec(&tv, &chars_of("height:"));
    if sized {
        return string_of(&t);
    }
    match crate::network::image_dimensions(data) {
        Some((w, h)) => {
            let gt = chars_of(">");
            match rfind_exec(&t, &gt) {
                Some(g) => {
                    proof { lemma_rfind_bound(t@, gt@, t@.len() as int); }
                    let mut st: Vec<char> = Vec::new();
                    push_str(&mut st, " style=\"width:");
                    push_all(&mut st, &decimal_exec(w as usize));
                    push_str(&mut st, "px;height:");
                    push_all(&mut st, &decimal_exec(h as usize));
                    push_str(&mut st, "px\"");
                    string_of(&insert_chars(&t, g, &st))
                },
                None => string_of(&t),
            }
        },
        None => string_of(&t),
    }
}

// ---------------------------------------------------------------------------
// Downloads
// ---------------------------------------------------------------------------

/// A character kept in a cache file name: ASCII letters and digits, `.`
/// and `-`; anything else becomes `_`.
pub open spec fn cache_char(c: char) -> char {
    if ('a' <= c <= 'z') || ('A' <= c <= 'Z') || ('0' <= c <= '9') || c == '.' || c == '-' {
        c
    } else {
        '_'
    }
}

/// The cache file name of a download: the last segment of the URL path
/// (`resource` when there is none or it is empty); a name with a dot has
/// its unsafe characters replaced, a name without one gets `.download`.
pub open spec fn cache_name(last_segment: Option<Seq<char>>) -> Seq<char> {
    let f = match last_segment {
        Some(s) => if s.len() > 0 { s } else { "resource"@ },
        None => "resource"@,
    };
    if contains_seq(f, "."@) {
        f.map_values(|c: char| cache_char(c))
    } else {
        f + ".download"@
    }
}

pub fn cache_file_name(last_segment: Option<&str>) -> (r: String)
    ensures
        r@ == cache_name(match last_segment { Some(s) => Some(s@), None => None }),
{
    let f = match last_segment {
        Some(s) => {
            let v = chars_of(s);
            if v.len() > 0 { v } else { chars_of("resource") }
        },
        None => chars_of("resource"),
    };
    if contains_exec(&f, &chars_of(".")) {
        let mut out: Vec<char> = Vec::new();
        let mut i: usize = 0;
        while i < f.len()
            invariant
                i <= f.len(),
                out@ == f@.take(i as int).map_values(|c: char| cache_char(c)),
            decreases f.len() - i,
        {
            let c = f[i];
            let k = if ('a' <= c && c <= 'z') || ('A' <= c && c <= 'Z') || ('0' <= c && c <= '9') || c == '.' || c == '-' {
                c
            } else {
                '_'
            };
            out.push(k);
            i = i + 1;
            assert(out@ =~= f@.take(i as int).map_values(|c: char| cache_char(c)));
        }
        assert(f@.take(f.len() as int) == f@);
        string_of(&out)
    } else {
        let mut out = f;
        push_str(&mut out, ".download");
        string_of(&out)
    }
}

/// Refuses a response whose announced length breaks the cap, before its
/// body is read.
pub fn check_content_length(limits: &AssetLimits, url: &str, len: Option<u64>) -> (r: Result<(), DownloadError>)
    ensures
        r is Err <==> (limits.max_bytes > 0 && (len matches Some(l) && l > limits.max_bytes)),
        r matches Err(e) ==> len matches Some(l) && download_error_view(e) == (0int, url@, limits.max_bytes, l),
{
    match len {
        Some(l) => {
            if limits.max_bytes > 0 && l > limits.max_bytes {
                Err(DownloadError::TooLarge { url: string_of(&chars_of(url)), cap: limits.max_bytes, got: l })
            } else {
                Ok(())
            }
        },
        None => Ok(()),
    }
}

// ---------------------------------------------------------------------------
// Warnings
// ---------------------------------------------------------------------------

/// The warning for a style sheet that could not be fetched: the size-cap
/// refusal as it is (TP-1003), anything else as a failed download
/// (TP-1004).
pub fn css_fetch_warning(url: &str, too_large: bool, error: &str) -> (w: Warning)
    ensures
        too_large ==> w.code@ == "TP-1003"@ && w.message@ == error@,
        !too_large ==> w.code@ == "TP-1004"@ && w.message@ == "failed to download CSS "@ + url@ + ": "@ + error@,
{
    if too_large {
        Warning::new("TP-1003", error)
    } else {
        let mut m: Vec<char> = Vec::new();
        push_str(&mut m, "failed to download CSS ");
        push_str(&mut m, url);
        push_str(&mut m, ": ");
        push_str(&mut m, error);
        Warning::new("TP-1004", string_of(&m).as_str())
    }
}

/// The warning for a fetched style sheet that could not be read (TP-1004).
pub fn css_read_warning(url: &str, error: &str) -> (w: Warning)
    ensures
        w.code@ == "TP-1004"@,
        w.message@ == "failed to read downloaded CSS "@ + url@ + ": "@ + error@,
{
    let mut m: Vec<char> = Vec::new();
    push_str(&mut m, "failed to read downloaded CSS ");
    push_str(&mut m, url);
    push_str(&mut m, ": ");
    push_str(&mut m, error);
    Warning::new("TP-1004", string_of(&m).as_str())
}

/// The warning for an image that could not be fetched: the size-cap
/// refusal as it is (TP-1003), anything else as a failed download
/// (TP-1001).
pub fn image_fetch_warning(url: &str, too_large: bool, error: &str) -> (w: Warning)
    ensures
        too_large ==> w.code@ == "TP-1003"@ && w.message@ == error@,
        !too_large ==> w.code@ == "TP-1001"@ && w.message@ == "failed to download image "@ + url@ + ": "@ + error@,
{
    if too_large {
        Warning::new("TP-1003", error)
    } else {
        let mut m: Vec<char> = Vec::new();
        push_str(&mut m, "failed to download image ");
        push_str(&mut m, url);
        push_str(&mut m, ": ");
        push_str(&mut m, error);
        Warning::new("TP-1001", string_of(&m).as_str())
    }
}

/// The warning for a fetched image that could not be read (TP-1002).
pub fn image_read_warning(url: &str, error: &str) -> (w: Warning)
    ensures
        w.code@ == "TP-1002"@,
        w.message@ == "failed to read downloaded image "@ + url@ + ": "@ + error@,
{
    let mut m: Vec<char> = Vec::new();
    push_str(&mut m, "failed to read downloaded image ");
    push_str(&mut m, url);
    push_str(&mut m, ": ");
    push_str(&mut m, error);
    Warning::new("TP-1002", string_of(&m).as_str())
}

/// The warning for a fetched image with no bytes (TP-1002).
pub fn empty_image_warning(url: &str) -> (w: Warning)
    ensures
        w.code@ == "TP-1002"@,
        w.message@ == "zero-byte image: "@ + url@,
{
    let mut m: Vec<char> = Vec::new();
    push_str(&mut m, "zero-byte image: ");
    push_str(&mut m, url);
    Warning::new("TP-1002", string_of(&m).as_str())
}

/// What a downloaded image does to the page: a fetch with no bytes leaves
/// the page as it is and warns (TP-1002); otherwise the image gets the
/// bundle name of the `index`-th image, and its tag (the first occurrence
/// of it in the page) is rewritten to that name.
pub fn place_downloaded_image(html: &str, tag: &str, url: &str, index: usize, data: &[u8]) -> (r: Result<(String, String), Warning>)
    requires
        data@.len() <= isize::MAX,
    ensures
        r is Err <==> data@.len() == 0,
        r matches Err(w) ==> w.code@ == "TP-1002"@ && w.message@ == "zero-byte image: "@ + url@,
        r matches Ok((page, name)) ==> name@ == image_name(index as nat) && page@ == replace_first(
            html@,
            tag@,
            rewritten_image_tag(tag@, url@, image_name(index as nat), data@),
        ),
{
    if data.len() == 0 {
        return Err(empty_image_warning(url));
    }
    let name = remote_image_name(index);
    let new_tag = rewrite_image_tag(tag, url, name.as_str(), data);
    let page = replace_first_str(html, tag, new_tag.as_str());
    Ok((page, name))
}

} // verus!
