//! Document configuration (`typepress.yaml`) and how it merges with the
//! options given on the command line: an explicit option always wins over
//! the configuration file.
use vstd::prelude::*;
use crate::text::{chars_of, string_of, eq_str};
use crate::css_layout::rules::string_views;

verus! {

/// Where the rendered outputs go.
#[derive(Debug, Clone)]
pub struct OutputConfig {
    /// PDF output path (none to skip the PDF).
    pub pdf: Option<String>,
    /// SVG output path.
    pub svg: Option<String>,
    /// PNG output path.
    pub png: Option<String>,
}

/// Page settings.
#[derive(Debug, Clone)]
pub struct PageConfig {
    /// Page size: A4, Letter, A3, ...
    pub size: Option<String>,
    /// Landscape orientation.
    pub landscape: Option<bool>,
    /// Page margins.
    pub margin: Option<String>,
}

/// Math rendering settings.
#[derive(Debug, Clone)]
pub struct MathConfig {
    /// Render math (the fonts are found automatically).
    pub enabled: bool,
    /// The font directory to use instead.
    pub font_dir: Option<String>,
}

/// The value of a boolean setting that is left out: on.
pub fn default_true() -> (r: bool)
    ensures
        r,
{
    true
}

impl Default for MathConfig {
    fn default() -> (r: MathConfig)
        ensures
            r.enabled,
            r.font_dir is None,
    {
        MathConfig { enabled: default_true(), font_dir: None }
    }
}

/// Document metadata.
#[derive(Debug, Clone)]
pub struct MetadataConfig {
    pub title: Option<String>,
    pub author: Vec<String>,
    pub language: Option<String>,
}

/// PDF features.
#[derive(Debug, Clone)]
pub struct PdfConfig {
    pub bookmarks: Option<bool>,
    pub tagged: Option<bool>,
    pub pdf_ua: Option<bool>,
}

impl Default for PdfConfig {
    fn default() -> (r: PdfConfig)
        ensures
            r.bookmarks is None,
            r.tagged is None,
            r.pdf_ua is None,
    {
        PdfConfig { bookmarks: None, tagged: None, pdf_ua: None }
    }
}

/// The options given explicitly for one render (command line or request).
#[derive(Debug, Clone)]
pub struct ExplicitOptions {
    pub size: Option<String>,
    pub landscape: bool,
    /// Whether margins were given.
    pub margin: bool,
    pub title: Option<String>,
    pub authors: Vec<String>,
    pub language: Option<String>,
    pub bookmarks: bool,
    pub no_outline: bool,
    pub tagged: bool,
    pub pdf_ua: bool,
}

/// Where the page margins come from.
#[derive(Debug, Clone)]
pub enum MarginSource {
    /// The margins given explicitly.
    Explicit,
    /// The margin text of the configuration file.
    Config(String),
    /// The engine's default margins.
    Default,
}

/// The settings the PDF engine is built with; `None` leaves the engine's
/// own default.
#[derive(Debug, Clone)]
pub struct EngineSettings {
    pub page_size: Option<String>,
    pub landscape: Option<bool>,
    pub margin: MarginSource,
    pub title: Option<String>,
    pub authors: Option<Vec<String>>,
    pub language: Option<String>,
    pub bookmarks: bool,
    pub tagged: bool,
    pub pdf_ua: bool,
}

pub open spec fn or_else<T>(a: Option<T>, b: Option<T>) -> Option<T> {
    match a {
        Some(x) => Some(x),
        None => b,
    }
}

/// The page size: the explicit one, else the configured one.
pub open spec fn merged_size(opts: ExplicitOptions, page: Option<PageConfig>) -> Option<String> {
    or_else(opts.size, match page { Some(p) => p.size, None => None })
}

/// Landscape when asked for explicitly; else what the configuration says.
pub open spec fn merged_landscape(opts: ExplicitOptions, page: Option<PageConfig>) -> Option<bool> {
    if opts.landscape {
        Some(true)
    } else {
        match page {
            Some(p) => p.landscape,
            None => None,
        }
    }
}

/// The explicit margins, else the configured margin text.
pub open spec fn merged_margin(opts: ExplicitOptions, page: Option<PageConfig>) -> MarginSource {
    if opts.margin {
        MarginSource::Explicit
    } else {
        match page {
            Some(p) => match p.margin {
                Some(m) => MarginSource::Config(m),
                None => MarginSource::Default,
            },
            None => MarginSource::Default,
        }
    }
}

/// The explicit authors when there are any, else the configured ones when
/// there are any.
pub open spec fn merged_authors(opts: ExplicitOptions, meta: Option<MetadataConfig>) -> Option<Seq<Seq<char>>> {
    if opts.authors@.len() > 0 {
        Some(string_views(opts.authors@))
    } else {
        match meta {
            Some(m) => if m.author@.len() > 0 {
                Some(string_views(m.author@))
            } else {
                None
            },
            None => None,
        }
    }
}

pub open spec fn authors_view(a: Option<Vec<String>>) -> Option<Seq<Seq<char>>> {
    match a {
        Some(v) => Some(string_views(v@)),
        None => None,
    }
}

fn clone_strings(v: &Vec<String>) -> (r: Vec<String>)
    ensures
        string_views(r@) == string_views(v@),
{
    let mut out: Vec<String> = Vec::new();
    let mut i: usize = 0;
    while i < v.len()
        invariant
            i <= v.len(),
            out@.len() == i,
            string_views(out@) == string_views(v@.take(i as int)),
        decreases v.len() - i,
    {
        let ghost before = out@;
        let item: String = string_of(&chars_of(v[i].as_str()));
        out.push(item);
        assert(out@ == before.push(item));
        assert(v@.take(i + 1) == v@.take(i as int).push(v@[i as int]));
        i = i + 1;
        assert forall|k: int| 0 <= k < i implies #[trigger] string_views(out@)[k] == string_views(v@.take(i as int))[k] by {
            if k < i - 1 {
                assert(string_views(before)[k] == string_views(v@.take(i - 1))[k]);
                assert(out@[k] == before[k]);
            } else {
                assert(out@[k] == item);
            }
        }
        assert(string_views(out@) =~= string_views(v@.take(i as int)));
    }
    assert(v@.take(v.len() as int) == v@);
    out
}

/// Merges the explicit options over the configuration file. Bookmarks
/// (unless the outline is switched off), tagging and PDF/UA always follow
/// the explicit flags.
pub fn engine_settings(opts: &ExplicitOptions, page: &Option<PageConfig>, meta: &Option<MetadataConfig>) -> (r: EngineSettings)
    ensures
        r.page_size == merged_size(*opts, *page),
        r.landscape == merged_landscape(*opts, *page),
        r.margin == merged_margin(*opts, *page),
        r.title == or_else(opts.title, match *meta { Some(m) => m.title, None => None }),
        authors_view(r.authors) == merged_authors(*opts, *meta),
        r.language == or_else(opts.language, match *meta { Some(m) => m.language, None => None }),
        r.bookmarks == (opts.bookmarks && !opts.no_outline),
        r.tagged == opts.tagged,
        r.pdf_ua == opts.pdf_ua,
{
    let page_size = match &opts.size {
        Some(s) => Some(s.clone()),
        None => match page {
            Some(p) => p.size.clone(),
            None => None,
        },
    };
    let landscape = if opts.landscape {
        Some(true)
    } else {
        match page {
            Some(p) => p.landscape,
            None => None,
        }
    };
    let margin = if opts.margin {
        MarginSource::Explicit
    } else {
        match page {
            Some(p) => match &p.margin {
                Some(m) => MarginSource::Config(m.clone()),
                None => MarginSource::Default,
            },
            None => MarginSource::Default,
        }
    };
    let title = match &opts.title {
        Some(t) => Some(t.clone()),
        None => match meta {
            Some(m) => m.title.clone(),
            None => None,
        },
    };
    let authors = if opts.authors.len() > 0 {
        Some(clone_strings(&opts.authors))
    } else {
        match meta {
            Some(m) => if m.author.len() > 0 {
                Some(clone_strings(&m.author))
            } else {
                None
            },
            None => None,
        }
    };
    let language = match &opts.language {
        Some(l) => Some(l.clone()),
        None => match meta {
            Some(m) => m.language.clone(),
            None => None,
        },
    };
    EngineSettings {
        page_size,
        landscape,
        margin,
        title,
        authors,
        language,
        bookmarks: if opts.no_outline { false } else { opts.bookmarks },
        tagged: opts.tagged,
        pdf_ua: opts.pdf_ua,
    }
}

/// An option given explicitly is what the engine gets, whatever the
/// configuration file says; an option not given explicitly comes from the
/// configuration file.
pub proof fn lemma_explicit_options_win(opts: ExplicitOptions, page: Option<PageConfig>, meta: Option<MetadataConfig>)
    ensures
        opts.size is Some ==> merged_size(opts, page) == opts.size,
        opts.size is None ==> merged_size(opts, page) == match page { Some(p) => p.size, None => None },
        opts.landscape ==> merged_landscape(opts, page) == Some(true),
        opts.margin ==> merged_margin(opts, page) == MarginSource::Explicit,
        opts.title is Some ==> or_else(opts.title, match meta { Some(m) => m.title, None => None }) == opts.title,
        opts.authors@.len() > 0 ==> merged_authors(opts, meta) == Some(string_views(opts.authors@)),
        opts.language is Some ==> or_else(opts.language, match meta { Some(m) => m.language, None => None }) == opts.language,
{
}

/// The page set-ups that automatic fitting tries, in order: the page size
/// in portrait and landscape, then one size up (A3 both ways after A4, A2
/// landscape after A3).
pub open spec fn autofit_candidate_list(base: Seq<char>) -> Seq<(Seq<char>, bool)> {
    seq![(base, false), (base, true)] + if base == "A4"@ {
        seq![("A3"@, false), ("A3"@, true)]
    } else if base == "A3"@ {
        seq![("A2"@, true)]
    } else {
        Seq::empty()
    }
}

pub open spec fn candidate_views(v: Seq<(String, bool)>) -> Seq<(Seq<char>, bool)> {
    v.map_values(|c: (String, bool)| (c.0@, c.1))
}

pub fn autofit_candidates(base: &str) -> (r: Vec<(String, bool)>)
    ensures
        candidate_views(r@) == autofit_candidate_list(base@),
{
    let b = chars_of(base);
    let mut out: Vec<(String, bool)> = Vec::new();
    out.push((string_of(&b), false));
    out.push((string_of(&b), true));
    if eq_str(&b, "A4") {
        out.push((string_of(&chars_of("A3")), false));
        out.push((string_of(&chars_of("A3")), true));
    } else if eq_str(&b, "A3") {
        out.push((string_of(&chars_of("A2")), true));
    }
    assert(candidate_views(out@) =~= autofit_candidate_list(base@));
    out
}

/// The input is Markdown when its format says `md`, when the input file
/// has the `md` extension, or when the configuration says `md`.
pub open spec fn markdown_input(from: Seq<char>, extension: Option<Seq<char>>, config_from: Option<Seq<char>>) -> bool {
    from == "md"@ || extension == Some("md"@) || config_from == Some("md"@)
}

pub open spec fn opt_str_view(o: Option<&str>) -> Option<Seq<char>> {
    match o {
        Some(s) => Some(s@),
        None => None,
    }
}

fn opt_is_md(o: Option<&str>) -> (b: bool)
    ensures
        b == (opt_str_view(o) == Some("md"@)),
{
    match o {
        Some(s) => eq_str(&chars_of(s), "md"),
        None => false,
    }
}

pub fn input_is_markdown(from: &str, extension: Option<&str>, config_from: Option<&str>) -> (b: bool)
    ensures
        b == markdown_input(from@, opt_str_view(extension), opt_str_view(config_from)),
{
    eq_str(&chars_of(from), "md") || opt_is_md(extension) || opt_is_md(config_from)
}

} // verus!
