//! `@font-face` rules: finding them in style sheets and HTML `<style>`
//! blocks, and deciding how a font URL is to be fetched.
use vstd::prelude::*;
use crate::text::{
    chars_of, string_of, push_range, occurs_at, occurs_at_exec, find_from, find_from_exec,
    lemma_find_from, ws_end, ws_end_exec, lemma_ws_end, trim, trimmed_range, seq_views, eq_str,
    contains_seq, contains_exec,
};
use crate::css_layout::rules::{style_sheets, style_sheets_from};

verus! {

/// A web font: its family name and where its file is.
#[derive(Debug, Clone)]
pub struct FontFace {
    pub family: String,
    pub src_url: String,
}

impl FontFace {
    pub open spec fn face_view(&self) -> (Seq<char>, Seq<char>) {
        (self.family@, self.src_url@)
    }
}

pub open spec fn faces_view(v: Seq<FontFace>) -> Seq<(Seq<char>, Seq<char>)> {
    v.map_values(|f: FontFace| f.face_view())
}

// ---------------------------------------------------------------------------
// The grammar
// ---------------------------------------------------------------------------

pub open spec fn is_quote(c: char) -> bool {
    c == '"' || c == '\''
}

/// A character that can stand in a family name.
pub open spec fn family_char(c: char) -> bool {
    !is_quote(c) && c != ';'
}

/// A character that can stand in a URL.
pub open spec fn url_char(c: char) -> bool {
    !is_quote(c) && c != ')'
}

/// End of the run of family-name characters from `i`.
pub open spec fn family_run_end(s: Seq<char>, i: int) -> int
    decreases s.len() - i,
{
    if 0 <= i < s.len() && family_char(s[i]) {
        family_run_end(s, i + 1)
    } else {
        i
    }
}

/// End of the run of URL characters from `i`.
pub open spec fn url_run_end(s: Seq<char>, i: int) -> int
    decreases s.len() - i,
{
    if 0 <= i < s.len() && url_char(s[i]) {
        url_run_end(s, i + 1)
    } else {
        i
    }
}

/// The family of a `font-family\s*:\s*["']?([^"';]+)["']?` match that
/// starts at `p`. After the colon and its white space an opening quote is
/// skipped when a name follows it; when no name character follows the
/// white space, the last white-space character is the name.
pub open spec fn family_at(s: Seq<char>, p: int) -> Option<Seq<char>> {
    if occurs_at(s, p, "font-family"@) {
        let c = ws_end(s, p + 11);
        if c < s.len() && s[c] == ':' {
            let k = c + 1;
            let w = ws_end(s, k);
            if w + 1 < s.len() && is_quote(s[w]) && family_char(s[w + 1]) {
                Some(s.subrange(w + 1, family_run_end(s, w + 1)))
            } else if w < s.len() && family_char(s[w]) {
                Some(s.subrange(w, family_run_end(s, w)))
            } else if w > k {
                Some(s.subrange(w - 1, family_run_end(s, w - 1)))
            } else {
                None
            }
        } else {
            None
        }
    } else {
        None
    }
}

/// The URL of a `src\s*:\s*url\(["']?([^"')]+)["']?\)` match that starts
/// at `p`.
pub open spec fn src_at(s: Seq<char>, p: int) -> Option<Seq<char>> {
    if occurs_at(s, p, "src"@) {
        let a = ws_end(s, p + 3);
        if a < s.len() && s[a] == ':' {
            let b = ws_end(s, a + 1);
            if occurs_at(s, b, "url("@) {
                let u = b + 4;
                let st = if u < s.len() && is_quote(s[u]) { u + 1 } else { u };
                let e = url_run_end(s, st);
                if e > st && ((e < s.len() && s[e] == ')') || (e + 1 < s.len() && is_quote(s[e]) && s[e + 1] == ')')) {
                    Some(s.subrange(st, e))
                } else {
                    None
                }
            } else {
                None
            }
        } else {
            None
        }
    } else {
        None
    }
}

/// The family of the first `font-family` declaration from `i` on.
pub open spec fn first_family(s: Seq<char>, i: int) -> Option<Seq<char>>
    decreases s.len() + 1 - i,
{
    match find_from(s, "font-family"@, i) {
        Some(p) => {
            proof { lemma_find_from(s, "font-family"@, i); }
            if i >= 0 {
                match family_at(s, p) {
                    Some(v) => Some(v),
                    None => first_family(s, p + 1),
                }
            } else {
                None
            }
        },
        None => None,
    }
}

/// The URL of the first `src: url(...)` declaration from `i` on.
pub open spec fn first_src(s: Seq<char>, i: int) -> Option<Seq<char>>
    decreases s.len() + 1 - i,
{
    match find_from(s, "src"@, i) {
        Some(p) => {
            proof { lemma_find_from(s, "src"@, i); }
            if i >= 0 {
                match src_at(s, p) {
                    Some(v) => Some(v),
                    None => first_src(s, p + 1),
                }
            } else {
                None
            }
        },
        None => None,
    }
}

/// The bodies of the `(?s)@font-face\s*\{([^}]+)\}` rules from `i` on: the
/// text between the brace after `@font-face` and the next closing brace,
/// when it is not empty.
pub open spec fn font_face_bodies_from(s: Seq<char>, i: int) -> Seq<Seq<char>>
    decreases s.len() + 1 - i,
{
    match find_from(s, "@font-face"@, i) {
        Some(p) => {
            proof {
                lemma_find_from(s, "@font-face"@, i);
                reveal_strlit("@font-face");
            }
            if i >= 0 {
                proof { lemma_ws_end(s, p + 10); }
                let a = ws_end(s, p + 10);
                if a < s.len() && s[a] == '{' {
                    match find_from(s, "}"@, a + 1) {
                        Some(q) => {
                            proof {
                                lemma_find_from(s, "}"@, a + 1);
                                reveal_strlit("}");
                            }
                            if q > a + 1 {
                                seq![s.subrange(a + 1, q)] + font_face_bodies_from(s, q + 1)
                            } else {
                                font_face_bodies_from(s, p + 1)
                            }
                        },
                        None => font_face_bodies_from(s, p + 1),
                    }
                } else {
                    font_face_bodies_from(s, p + 1)
                }
            } else {
                Seq::empty()
            }
        },
        None => Seq::empty(),
    }
}

/// The face a rule body declares: its trimmed family and URL, when it has
/// both.
pub open spec fn face_of(body: Seq<char>) -> Option<(Seq<char>, Seq<char>)> {
    match (first_family(body, 0), first_src(body, 0)) {
        (Some(f), Some(u)) => Some((trim(f), trim(u))),
        _ => None,
    }
}

/// The faces declared by a list of rule bodies, in order.
pub open spec fn faces_of(bodies: Seq<Seq<char>>) -> Seq<(Seq<char>, Seq<char>)>
    decreases bodies.len(),
{
    if bodies.len() == 0 {
        Seq::empty()
    } else {
        faces_of(bodies.drop_last()) + match face_of(bodies.last()) {
            Some(f) => seq![f],
            None => Seq::empty(),
        }
    }
}

/// The faces of a style sheet.
pub open spec fn font_faces_spec(css: Seq<char>) -> Seq<(Seq<char>, Seq<char>)> {
    faces_of(font_face_bodies_from(css, 0))
}

/// The faces of a list of style sheets, in order.
pub open spec fn faces_in_sheets(sheets: Seq<Seq<char>>) -> Seq<(Seq<char>, Seq<char>)>
    decreases sheets.len(),
{
    if sheets.len() == 0 {
        Seq::empty()
    } else {
        faces_in_sheets(sheets.drop_last()) + font_faces_spec(sheets.last())
    }
}

// ---------------------------------------------------------------------------
// Parsing
// ---------------------------------------------------------------------------

fn is_quote_exec(c: char) -> (b: bool)
    ensures
        b == is_quote(c),
{
    c == '"' || c == '\''
}

fn family_run_end_exec(s: &Vec<char>, i: usize) -> (r: usize)
    requires
        i <= s.len(),
    ensures
        r == family_run_end(s@, i as int),
        i <= r <= s.len(),
{
    let mut j = i;
    while j < s.len() && !is_quote_exec(s[j]) && s[j] != ';'
        invariant
            i <= j <= s.len(),
            family_run_end(s@, i as int) == family_run_end(s@, j as int),
        decreases s.len() - j,
    {
        j = j + 1;
    }
    j
}

fn url_run_end_exec(s: &Vec<char>, i: usize) -> (r: usize)
    requires
        i <= s.len(),
    ensures
        r == url_run_end(s@, i as int),
        i <= r <= s.len(),
{
    let mut j = i;
    while j < s.len() && !is_quote_exec(s[j]) && s[j] != ')'
        invariant
            i <= j <= s.len(),
            url_run_end(s@, i as int) == url_run_end(s@, j as int),
        decreases s.len() - j,
    {
        j = j + 1;
    }
    j
}

fn slice(s: &Vec<char>, a: usize, b: usize) -> (r: Vec<char>)
    requires
        a <= b <= s.len(),
    ensures
        r@ == s@.subrange(a as int, b as int),
{
    let mut out: Vec<char> = Vec::new();
    push_range(&mut out, s, a, b);
    out
}

fn family_at_exec(s: &Vec<char>, p: usize, name: &Vec<char>) -> (r: Option<Vec<char>>)
    requires
        name@ == "font-family"@,
    ensures
        match r {
            Some(v) => family_at(s@, p as int) == Some(v@),
            None => family_at(s@, p as int) is None,
        },
{
    proof { reveal_strlit("font-family"); }
    let n = s.len();
    if !occurs_at_exec(s, p, name) {
        return None;
    }
    let c = ws_end_exec(s, p + 11);
    if !(c < s.len() && s[c] == ':') {
        return None;
    }
    let k = c + 1;
    let w = ws_end_exec(s, k);
    proof { lemma_ws_end(s@, k as int); }
    if w < n && w + 1 < n && is_quote_exec(s[w]) && !is_quote_exec(s[w + 1]) && s[w + 1] != ';' {
        let e = family_run_end_exec(s, w + 1);
        Some(slice(s, w + 1, e))
    } else if w < s.len() && !is_quote_exec(s[w]) && s[w] != ';' {
        let e = family_run_end_exec(s, w);
        Some(slice(s, w, e))
    } else if w > k {
        let e = family_run_end_exec(s, w - 1);
        Some(slice(s, w - 1, e))
    } else {
        None
    }
}

fn src_at_exec(s: &Vec<char>, p: usize, name: &Vec<char>, url: &Vec<char>) -> (r: Option<Vec<char>>)
    requires
        name@ == "src"@,
        url@ == "url("@,
    ensures
        match r {
            Some(v) => src_at(s@, p as int) == Some(v@),
            None => src_at(s@, p as int) is None,
        },
{
    proof {
        reveal_strlit("src");
        reveal_strlit("url(");
    }
    let n = s.len();
    if !occurs_at_exec(s, p, name) {
        return None;
    }
    let a = ws_end_exec(s, p + 3);
    if !(a < s.len() && s[a] == ':') {
        return None;
    }
    let b = ws_end_exec(s, a + 1);
    if !occurs_at_exec(s, b, url) {
        return None;
    }
    let u = b + 4;
    let st = if u < s.len() && is_quote_exec(s[u]) { u + 1 } else { u };
    let e = url_run_end_exec(s, st);
    if e > st && ((e < s.len() && s[e] == ')') || (e < n && e + 1 < n && is_quote_exec(s[e]) && s[e + 1] == ')')) {
        Some(slice(s, st, e))
    } else {
        None
    }
}

fn first_family_exec(s: &Vec<char>) -> (r: Option<Vec<char>>)
    ensures
        match r {
            Some(v) => first_family(s@, 0) == Some(v@),
            None => first_family(s@, 0) is None,
        },
{
    let name = chars_of("font-family");
    proof { reveal_strlit("font-family"); }
    let n = s.len();
    let mut i: usize = 0;
    while i <= s.len()
        invariant
            name@ == "font-family"@,
            name@.len() == 11,
            n == s@.len(),
            first_family(s@, 0) == first_family(s@, i as int),
        decreases s.len() + 1 - i,
    {
        match find_from_exec(s, &name, i) {
            Some(p) => {
                proof { lemma_find_from(s@, name@, i as int); }
                match family_at_exec(s, p, &name) {
                    Some(v) => return Some(v),
                    None => { i = p + 1; },
                }
            },
            None => return None,
        }
    }
    proof { reveal_strlit("font-family"); }
    None
}

fn first_src_exec(s: &Vec<char>) -> (r: Option<Vec<char>>)
    ensures
        match r {
            Some(v) => first_src(s@, 0) == Some(v@),
            None => first_src(s@, 0) is None,
        },
{
    let name = chars_of("src");
    let url = chars_of("url(");
    proof { reveal_strlit("src"); }
    let n = s.len();
    let mut i: usize = 0;
    while i <= s.len()
        invariant
            name@ == "src"@,
            name@.len() == 3,
            n == s@.len(),
            url@ == "url("@,
            first_src(s@, 0) == first_src(s@, i as int),
        decreases s.len() + 1 - i,
    {
        match find_from_exec(s, &name, i) {
            Some(p) => {
                proof { lemma_find_from(s@, name@, i as int); }
                match src_at_exec(s, p, &name, &url) {
                    Some(v) => return Some(v),
                    None => { i = p + 1; },
                }
            },
            None => return None,
        }
    }
    proof { reveal_strlit("src"); }
    None
}

fn face_of_exec(body: &Vec<char>) -> (r: Option<FontFace>)
    ensures
        match r {
            Some(f) => face_of(body@) == Some(f.face_view()),
            None => face_of(body@) is None,
        },
{
    let fam = first_family_exec(body);
    let src = first_src_exec(body);
    match (fam, src) {
        (Some(f), Some(u)) => {
            let ft = trimmed_range(&f, 0, f.len());
            let ut = trimmed_range(&u, 0, u.len());
            assert(f@.subrange(0, f@.len() as int) == f@);
            assert(u@.subrange(0, u@.len() as int) == u@);
            Some(FontFace { family: string_of(&ft), src_url: string_of(&ut) })
        },
        _ => None,
    }
}

fn push_faces_of_sheet(out: &mut Vec<FontFace>, css: &Vec<char>)
    ensures
        faces_view(final(out)@) == faces_view(old(out)@) + font_faces_spec(css@),
{
    let marker = chars_of("@font-face");
    let close = chars_of("}");
    proof {
        reveal_strlit("@font-face");
        reveal_strlit("}");
    }
    let ghost start = faces_view(out@);
    let ghost mut done: Seq<Seq<char>> = Seq::empty();
    let n = css.len();
    let mut i: usize = 0;
    while i <= css.len()
        invariant
            n == css@.len(),
            marker@ == "@font-face"@,
            marker@.len() == 10,
            close@ == "}"@,
            close@.len() == 1,
            done + font_face_bodies_from(css@, i as int) == font_face_bodies_from(css@, 0),
            faces_view(out@) == start + faces_of(done),
        ensures
            faces_view(out@) == start + faces_of(font_face_bodies_from(css@, 0)),
        decreases css.len() + 1 - i,
    {
        let p = match find_from_exec(css, &marker, i) {
            Some(p) => p,
            None => break,
        };
        proof { lemma_find_from(css@, marker@, i as int); }
        let a = ws_end_exec(css, p + 10);
        proof { lemma_ws_end(css@, p + 10); }
        if a < css.len() && css[a] == '{' {
            match find_from_exec(css, &close, a + 1) {
                Some(q) => {
                    proof { lemma_find_from(css@, close@, a + 1); }
                    if q > a + 1 {
                        let body = slice(css, a + 1, q);
                        let ghost before = out@;
                        match face_of_exec(&body) {
                            Some(f) => {
                                out.push(f);
                                assert(faces_view(out@) =~= faces_view(before).push(f.face_view()));
                            },
                            None => {},
                        }
                        proof {
                            let nd = done.push(body@);
                            assert(nd.drop_last() == done);
                            assert(faces_view(out@) =~= start + faces_of(nd));
                            assert(nd + font_face_bodies_from(css@, q + 1) =~= done + font_face_bodies_from(css@, i as int));
                            done = nd;
                        }
                        i = q + 1;
                    } else {
                        i = p + 1;
                    }
                },
                None => { i = p + 1; },
            }
        } else {
            i = p + 1;
        }
    }
}

/// The `@font-face` rules of a style sheet that give both a family and a
/// `url(...)` source, in order, with the family and the URL trimmed.
pub fn parse_font_faces(css: &str) -> (r: Vec<FontFace>)
    ensures
        faces_view(r@) == font_faces_spec(css@),
{
    let v = chars_of(css);
    let mut out: Vec<FontFace> = Vec::new();
    push_faces_of_sheet(&mut out, &v);
    assert(faces_view(out@) =~= font_faces_spec(css@));
    out
}

/// The `@font-face` rules of all `<style>` blocks of an HTML document, in
/// document order.
pub fn extract_font_faces_from_html(html: &str) -> (r: Vec<FontFace>)
    ensures
        faces_view(r@) == faces_in_sheets(style_sheets_from(html@, 0)),
{
    let v = chars_of(html);
    let sheets = style_sheets(&v);
    let mut out: Vec<FontFace> = Vec::new();
    let mut k: usize = 0;
    while k < sheets.len()
        invariant
            k <= sheets.len(),
            seq_views(sheets@) == style_sheets_from(html@, 0),
            v@ == html@,
            faces_view(out@) == faces_in_sheets(seq_views(sheets@).take(k as int)),
        decreases sheets.len() - k,
    {
        proof {
            assert(seq_views(sheets@).take(k + 1).drop_last() == seq_views(sheets@).take(k as int));
            assert(seq_views(sheets@).take(k + 1).last() == sheets@[k as int]@);
        }
        push_faces_of_sheet(&mut out, &sheets[k]);
        k = k + 1;
    }
    assert(seq_views(sheets@).take(sheets.len() as int) == seq_views(sheets@));
    out
}

// ---------------------------------------------------------------------------
// Font files
// ---------------------------------------------------------------------------

/// How a font URL is fetched.
#[derive(PartialEq, Eq, Structural, Clone, Copy, Debug)]
pub enum FontSource {
    /// Downloaded over HTTP(S).
    Remote,
    /// An absolute path (`/...` or a drive letter such as `C:`).
    Absolute,
    /// A path relative to the document or the working directory.
    Relative,
}

/// `http://` and `https://` URLs are remote; `/...` and `X:...` (more than
/// two bytes long) are absolute; anything else is relative.
pub open spec fn font_source(url: Seq<char>) -> FontSource {
    if occurs_at(url, 0, "http://"@) || occurs_at(url, 0, "https://"@) {
        FontSource::Remote
    } else if (url.len() > 0 && url[0] == '/') || (url.len() > 2 && (url[0] as u32) < 128 && url[1] == ':') {
        FontSource::Absolute
    } else {
        FontSource::Relative
    }
}

pub fn font_source_of(url: &str) -> (r: FontSource)
    ensures
        r == font_source(url@),
{
    let v = chars_of(url);
    let http = chars_of("http://");
    let https = chars_of("https://");
    if occurs_at_exec(&v, 0, &http) || occurs_at_exec(&v, 0, &https) {
        FontSource::Remote
    } else if (v.len() > 0 && v[0] == '/') || (v.len() > 2 && (v[0] as u32) < 128 && v[1] == ':') {
        FontSource::Absolute
    } else {
        FontSource::Relative
    }
}

/// The cache file name of a downloaded font: the last segment of the URL
/// path, with `.ttf` appended when it has no dot; `font.ttf` when the URL
/// has no path segments.
pub open spec fn font_file_name(last_segment: Option<Seq<char>>) -> Seq<char> {
    match last_segment {
        Some(s) => if contains_seq(s, "."@) {
            s
        } else {
            s + ".ttf"@
        },
        None => "font.ttf"@,
    }
}

pub fn font_cache_name(last_segment: Option<&str>) -> (r: String)
    ensures
        r@ == font_file_name(match last_segment { Some(s) => Some(s@), None => None }),
{
    match last_segment {
        Some(s) => {
            let v = chars_of(s);
            let dot = chars_of(".");
            if contains_exec(&v, &dot) {
                string_of(&v)
            } else {
                let mut out = v;
                crate::text::push_str(&mut out, ".ttf");
                string_of(&out)
            }
        },
        None => string_of(&chars_of("font.ttf")),
    }
}

/// The font file extensions, compared without regard to ASCII case.
pub open spec fn font_extension(ext: Seq<char>) -> bool {
    let l = ext.map_values(|c: char| crate::text::ascii_lower(c));
    l == "ttf"@ || l == "otf"@ || l == "woff2"@ || l == "ttc"@
}

pub fn is_font_extension(ext: &str) -> (b: bool)
    ensures
        b == font_extension(ext@),
{
    let v = chars_of(ext);
    let mut l: Vec<char> = Vec::new();
    let mut i: usize = 0;
    while i < v.len()
        invariant
            i <= v.len(),
            l@ == v@.take(i as int).map_values(|c: char| crate::text::ascii_lower(c)),
        decreases v.len() - i,
    {
        l.push(crate::text::ascii_lower_exec(v[i]));
        i = i + 1;
        assert(l@ =~= v@.take(i as int).map_values(|c: char| crate::text::ascii_lower(c)));
    }
    assert(v@.take(v.len() as int) == v@);
    eq_str(&l, "ttf") || eq_str(&l, "otf") || eq_str(&l, "woff2") || eq_str(&l, "ttc")
}

} // verus!
