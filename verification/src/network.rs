//! Remote asset policy and the computing parts of remote resource loading:
//! which URLs may be fetched, how large a body may be, what intrinsic size
//! an image has, and how downloaded resources are spliced into the page.
use vstd::prelude::*;
use crate::glob::glob_match;
pub use crate::glob::host_matches_glob;
use crate::text::{chars_of, push_all, push_str, string_of};

verus! {

/// Limits applied to every remote asset fetch (images, CSS, fonts, emoji).
///
/// Defaults: https-only, 10 MiB cap, no allowlist. A cap of 0 means
/// unlimited. Allowlist entries are host globs (e.g. `*.example.com`,
/// `cdn.example.com`); `*` matches any host.
pub struct AssetLimits {
    /// Maximum accepted body size in bytes. 0 = unlimited.
    pub max_bytes: u64,
    /// Allow plain-http (non-TLS) fetches. Default false (https-only).
    pub allow_http: bool,
    /// Host glob allowlist. Empty = allow any host.
    pub allowlist: Vec<String>,
}

/// The default cap: 10 MiB.
pub const DEFAULT_MAX_BYTES: u64 = 10485760;

impl AssetLimits {
    /// https only, a 10 MiB cap, no allowlist.
    pub fn default_limits() -> (r: AssetLimits)
        ensures
            r.max_bytes == DEFAULT_MAX_BYTES,
            !r.allow_http,
            r.allowlist@.len() == 0,
    {
        AssetLimits { max_bytes: DEFAULT_MAX_BYTES, allow_http: false, allowlist: Vec::new() }
    }
}

impl Default for AssetLimits {
    fn default() -> (r: AssetLimits)
        ensures
            r.max_bytes == DEFAULT_MAX_BYTES,
            !r.allow_http,
            r.allowlist@.len() == 0,
    {
        AssetLimits::default_limits()
    }
}

/// Why a remote fetch was refused. Callers translate this into a stable
/// TP-xxxx warning code (TooLarge → TP-1003; Blocked/Other →
/// TP-1001/1004/1005).
pub enum DownloadError {
    TooLarge { url: String, cap: u64, got: u64 },
    Blocked(String),
    Other(String),
}

/// The view of a refusal: (kind, url or message, cap, got), kind 0 for
/// too large, 1 for blocked, 2 for other.
pub open spec fn download_error_view(e: DownloadError) -> (int, Seq<char>, u64, u64) {
    match e {
        DownloadError::TooLarge { url, cap, got } => (0, url@, cap, got),
        DownloadError::Blocked(m) => (1, m@, 0, 0),
        DownloadError::Other(m) => (2, m@, 0, 0),
    }
}

/// Decimal notation of a `u64`.
pub open spec fn decimal_u64(n: u64) -> Seq<char> {
    crate::text::decimal(n as nat)
}

/// The text of a refusal.
pub open spec fn download_error_text(e: DownloadError) -> Seq<char> {
    match e {
        DownloadError::TooLarge { url, cap, got } => seq!['a', 's', 's', 'e', 't', ' ', 'e', 'x', 'c', 'e', 'e', 'd', 's', ' ']
            + decimal_u64(cap) + seq![' ', 'b', 'y', 't', 'e', 's', ' ', '('] + decimal_u64(got) + seq![' ', 'b', 'y', 't', 'e', 's', ')', ':', ' '] + url@,
        DownloadError::Blocked(m) => m@,
        DownloadError::Other(m) => m@,
    }
}

fn decimal_u64_exec(n: u64) -> (r: Vec<char>)
    ensures
        r@ == crate::text::decimal(n as nat),
    decreases n,
{
    if n < 10 {
        let mut r: Vec<char> = Vec::new();
        r.push(digit(n));
        r
    } else {
        let mut r = decimal_u64_exec(n / 10);
        r.push(digit(n % 10));
        r
    }
}

fn digit(d: u64) -> (c: char)
    requires
        d < 10,
    ensures
        c == crate::text::digit_char(d as nat),
{
    if d == 0 { '0' } else if d == 1 { '1' } else if d == 2 { '2' } else if d == 3 { '3' }
    else if d == 4 { '4' } else if d == 5 { '5' } else if d == 6 { '6' } else if d == 7 { '7' }
    else if d == 8 { '8' } else { '9' }
}

impl DownloadError {
    /// The text of the refusal, as its `Display` renders it.
    pub fn message(&self) -> (r: String)
        ensures
            r@ == download_error_text(*self),
    {
        match self {
            DownloadError::TooLarge { url, cap, got } => {
                let mut v: Vec<char> = Vec::new();
                push_str(&mut v, "asset exceeds ");
                let c = decimal_u64_exec(*cap);
                push_all(&mut v, &c);
                push_str(&mut v, " bytes (");
                let g = decimal_u64_exec(*got);
                push_all(&mut v, &g);
                push_str(&mut v, " bytes): ");
                push_str(&mut v, url.as_str());
                proof {
                    reveal_strlit("asset exceeds ");
                    reveal_strlit(" bytes (");
                    reveal_strlit(" bytes): ");
                    assert(v@ =~= download_error_text(*self));
                }
                string_of(&v)
            },
            DownloadError::Blocked(m) => string_of(&chars_of(m.as_str())),
            DownloadError::Other(m) => string_of(&chars_of(m.as_str())),
        }
    }
}

/// Whether a body of `len` bytes breaks the cap.
pub open spec fn too_large(limits: AssetLimits, len: int) -> bool {
    limits.max_bytes > 0 && len > limits.max_bytes
}

impl AssetLimits {
    /// Enforce the byte cap against an already-read body: refused exactly
    /// when a cap is set and the body is longer than it.
    pub fn check_size(&self, url: &str, len: usize) -> (r: Result<(), DownloadError>)
        ensures
            r is Err <==> too_large(*self, len as int),
            r matches Err(e) ==> download_error_view(e) == (0int, url@, self.max_bytes, len as u64),
    {
        if self.max_bytes > 0 && (len as u64) > self.max_bytes {
            return Err(DownloadError::TooLarge {
                url: string_of(&chars_of(url)),
                cap: self.max_bytes,
                got: len as u64,
            });
        }
        Ok(())
    }
}

// ── URL policy ──────────────────────────────────────────────────────────

/// What the `url` crate makes of a URL: its scheme and host, or the text of
/// its parse error.
pub uninterp spec fn url_parse(url: Seq<char>) -> Result<(Seq<char>, Option<Seq<char>>), Seq<char>>;

/// Parses `url` with `reqwest::Url` (the `url` crate's `Url::parse`) and
/// returns the scheme (`Url::scheme`) and host (`Url::host_str`), or the
/// parse error's text. Claimed: the result is the named `url_parse` of the
/// URL text.
#[verifier::external_body]
fn parse_url(url: &str) -> (r: Result<(String, Option<String>), String>)
    ensures
        match r {
            Ok((s, h)) => url_parse(url@) == Ok::<(Seq<char>, Option<Seq<char>>), Seq<char>>((s@, match h { Some(x) => Some(x@), None => None })),
            Err(m) => url_parse(url@) == Err::<(Seq<char>, Option<Seq<char>>), Seq<char>>(m@),
        },
{
    match url.parse::<reqwest::Url>() {
        Ok(u) => Ok((u.scheme().to_string(), u.host_str().map(str::to_string))),
        Err(e) => Err(e.to_string()),
    }
}

/// The `{:?}` rendering of a string.
pub uninterp spec fn debug_str(s: Seq<char>) -> Seq<char>;

/// Formats `s` with `{:?}` (the `Debug` impl of `str`): quoted, with
/// quotes, backslashes and control characters escaped. Claimed: the
/// result is the named `debug_str` of the text.
#[verifier::external_body]
fn debug_quoted(s: &str) -> (r: String)
    ensures
        r@ == debug_str(s@),
{
    format!("{:?}", s)
}

pub open spec fn https_name() -> Seq<char> {
    seq!['h', 't', 't', 'p', 's']
}

pub open spec fn http_name() -> Seq<char> {
    seq!['h', 't', 't', 'p']
}

/// Some allowlist entry matches the host.
pub open spec fn allowlisted(allowlist: Seq<String>, host: Seq<char>) -> bool {
    exists|k: int| 0 <= k < allowlist.len() && glob_match(#[trigger] allowlist[k]@, host)
}

/// Why `url` is refused under `limits`, if it is: the text of the refusal
/// and whether it is a policy block (`true`) or an unparsable URL.
pub open spec fn url_refusal(limits: AssetLimits, url: Seq<char>) -> Option<(bool, Seq<char>)> {
    match url_parse(url) {
        Err(e) => Some((false, seq!['I', 'n', 'v', 'a', 'l', 'i', 'd', ' ', 'U', 'R', 'L', ' '] + url + seq![':', ' '] + e)),
        Ok((scheme, host)) => match policy_refusal(limits, url, scheme, host) {
            Some(t) => Some((true, t)),
            None => None,
        },
    }
}

/// Why a parsed URL (its text, scheme and host) is blocked by the policy
/// of `limits`, if it is: plain http when not allowed, a scheme other than
/// http(s), or a host that no allowlist glob matches (with a non-empty
/// allowlist; a missing host counts as the empty host).
pub open spec fn policy_refusal(limits: AssetLimits, url: Seq<char>, scheme: Seq<char>, host: Option<Seq<char>>) -> Option<Seq<char>> {
    if scheme == http_name() && !limits.allow_http {
        Some(seq!['p', 'l', 'a', 'i', 'n', '-', 'h', 't', 't', 'p', ' ', 'b', 'l', 'o', 'c', 'k', 'e', 'd', ' ', '(', 'u', 's', 'e', ' ', '-', '-', 'a', 'l', 'l', 'o', 'w', '-', 'h', 't', 't', 'p', ')', ':', ' '] + url)
    } else if scheme != https_name() && scheme != http_name() {
        Some(seq!['u', 'n', 's', 'u', 'p', 'p', 'o', 'r', 't', 'e', 'd', ' ', 's', 'c', 'h', 'e', 'm', 'e', ' '] + debug_str(scheme) + seq![':', ' '] + url)
    } else {
        let h = match host { Some(x) => x, None => Seq::empty() };
        if limits.allowlist@.len() > 0 && !allowlisted(limits.allowlist@, h) {
            Some(seq!['h', 'o', 's', 't', ' '] + debug_str(h) + seq![' ', 'n', 'o', 't', ' ', 'i', 'n', ' ', 'a', 's', 's', 'e', 't', ' ', 'a', 'l', 'l', 'o', 'w', 'l', 'i', 's', 't', ':', ' '] + url)
        } else {
            None
        }
    }
}

fn eq_chars(a: &Vec<char>, b: &str) -> (r: bool)
    ensures
        r == (a@ == b@),
{
    let bv = chars_of(b);
    if a.len() != bv.len() {
        return false;
    }
    let mut k: usize = 0;
    while k < a.len()
        invariant
            a.len() == bv.len(),
            bv@ == b@,
            k <= a.len(),
            forall|j: int| 0 <= j < k ==> a@[j] == bv@[j],
        decreases a.len() - k,
    {
        if a[k] != bv[k] {
            return false;
        }
        k = k + 1;
    }
    assert(a@ =~= bv@);
    true
}

impl AssetLimits {
    /// Check whether a URL passes scheme + allowlist gates: `https` always,
    /// `http` only when allowed, other schemes never; with a non-empty
    /// allowlist the host must match one of its globs.
    pub fn check_url(&self, url: &str) -> (r: Result<(), DownloadError>)
        ensures
            r is Ok <==> url_refusal(*self, url@) is None,
            r matches Err(e) ==> url_refusal(*self, url@) matches Some((blocked, text)) && (
                if blocked { download_error_view(e) == (1int, text, 0u64, 0u64) } else { download_error_view(e) == (2int, text, 0u64, 0u64) }),
    {
        proof {
            reveal_strlit("https");
            reveal_strlit("http");
            assert("https"@ =~= https_name());
            assert("http"@ =~= http_name());
        }
        match parse_url(url) {
            Err(e) => {
                let mut v: Vec<char> = Vec::new();
                push_str(&mut v, "Invalid URL ");
                push_str(&mut v, url);
                push_str(&mut v, ": ");
                push_str(&mut v, e.as_str());
                proof {
                    reveal_strlit("Invalid URL ");
                    reveal_strlit(": ");
                }
                Err(DownloadError::Other(string_of(&v)))
            },
            Ok((scheme, host)) => {
                let h: Option<&str> = match &host {
                    Some(x) => Some(x.as_str()),
                    None => None,
                };
                self.url_policy(url, scheme.as_str(), h)
            },
        }
    }

    /// The policy on a parsed URL: `https` always, `http` only when
    /// allowed, other schemes never; with a non-empty allowlist the host
    /// must match one of its globs.
    pub fn url_policy(&self, url: &str, scheme: &str, host: Option<&str>) -> (r: Result<(), DownloadError>)
        ensures
            r is Ok <==> policy_refusal(*self, url@, scheme@, opt_chars_view(host)) is None,
            r matches Err(e) ==> policy_refusal(*self, url@, scheme@, opt_chars_view(host)) matches Some(text)
                && download_error_view(e) == (1int, text, 0u64, 0u64),
    {
        proof {
            reveal_strlit("https");
            reveal_strlit("http");
            assert("https"@ =~= https_name());
            assert("http"@ =~= http_name());
        }
        let sv = chars_of(scheme);
        let is_https = eq_chars(&sv, "https");
        let is_http = eq_chars(&sv, "http");
        if is_http && !self.allow_http {
            let mut v: Vec<char> = Vec::new();
            push_str(&mut v, "plain-http blocked (use --allow-http): ");
            push_str(&mut v, url);
            proof {
                reveal_strlit("plain-http blocked (use --allow-http): ");
            }
            return Err(DownloadError::Blocked(string_of(&v)));
        }
        if !is_https && !is_http {
            let mut v: Vec<char> = Vec::new();
            push_str(&mut v, "unsupported scheme ");
            let d = debug_quoted(scheme);
            push_str(&mut v, d.as_str());
            push_str(&mut v, ": ");
            push_str(&mut v, url);
            proof {
                reveal_strlit("unsupported scheme ");
                reveal_strlit(": ");
            }
            return Err(DownloadError::Blocked(string_of(&v)));
        }
        if self.allowlist.len() > 0 {
            let h: &str = match host {
                Some(x) => x,
                None => "",
            };
            proof {
                reveal_strlit("");
                assert(h@ == match opt_chars_view(host) { Some(x) => x, None => Seq::<char>::empty() });
            }
            let mut matched = false;
            let mut k: usize = 0;
            while k < self.allowlist.len()
                invariant
                    k <= self.allowlist.len(),
                    matched <==> exists|j: int| 0 <= j < k && glob_match(#[trigger] self.allowlist@[j]@, h@),
                decreases self.allowlist.len() - k,
            {
                if host_matches_glob(h, self.allowlist[k].as_str()) {
                    matched = true;
                }
                k = k + 1;
            }
            if !matched {
                assert(!allowlisted(self.allowlist@, h@));
                let mut v: Vec<char> = Vec::new();
                push_str(&mut v, "host ");
                let d = debug_quoted(h);
                push_str(&mut v, d.as_str());
                push_str(&mut v, " not in asset allowlist: ");
                push_str(&mut v, url);
                proof {
                    reveal_strlit("host ");
                    reveal_strlit(" not in asset allowlist: ");
                }
                return Err(DownloadError::Blocked(string_of(&v)));
            }
        }
        Ok(())
    }
}

/// The view of an optional text.
pub open spec fn opt_chars_view(o: Option<&str>) -> Option<Seq<char>> {
    match o {
        Some(s) => Some(s@),
        None => None,
    }
}


// ── Intrinsic image size ────────────────────────────────────────────────

/// Big-endian 16-bit value of two bytes.
pub open spec fn be16(a: u8, b: u8) -> int {
    a * 256 + b
}

/// Big-endian 32-bit value of four bytes.
pub open spec fn be32(a: u8, b: u8, c: u8, d: u8) -> int {
    ((a * 256 + b) * 256 + c) * 256 + d
}

pub open spec fn png_signature() -> Seq<u8> {
    seq![0x89u8, 0x50u8, 0x4eu8, 0x47u8, 0x0du8, 0x0au8, 0x1au8, 0x0au8]
}

pub open spec fn gif87a() -> Seq<u8> {
    seq![0x47u8, 0x49u8, 0x46u8, 0x38u8, 0x37u8, 0x61u8]
}

pub open spec fn gif89a() -> Seq<u8> {
    seq![0x47u8, 0x49u8, 0x46u8, 0x38u8, 0x39u8, 0x61u8]
}

/// A JPEG start-of-frame marker (baseline, progressive, lossless, …).
pub open spec fn is_sof_marker(m: u8) -> bool {
    (0xc0 <= m <= 0xc3) || (0xc5 <= m <= 0xc7) || (0xc9 <= m <= 0xcb) || (0xcd <= m <= 0xcf)
}

/// Walking the JPEG marker segments from `i`, the (width, height) of the
/// first start-of-frame segment.
pub open spec fn jpeg_scan(d: Seq<u8>, i: int) -> Option<(int, int)>
    decreases d.len() - i,
{
    if i < 0 || i + 9 >= d.len() {
        None
    } else if d[i] != 0xff {
        jpeg_scan(d, i + 1)
    } else {
        let marker = d[i + 1];
        if marker == 0xff || (0xd0 <= marker <= 0xd9) {
            jpeg_scan(d, i + 2)
        } else if is_sof_marker(marker) {
            Some((be16(d[i + 7], d[i + 8]), be16(d[i + 5], d[i + 6])))
        } else {
            let next = i + 2 + be16(d[i + 2], d[i + 3]);
            if next + 9 >= d.len() {
                None
            } else {
                jpeg_scan(d, next)
            }
        }
    }
}

/// The intrinsic (width, height) of a PNG, GIF or JPEG image, read from
/// its header: PNG big-endian 32-bit at 16 and 20, GIF little-endian
/// 16-bit at 6 and 8, JPEG from its first start-of-frame segment.
pub open spec fn image_dimensions_spec(d: Seq<u8>) -> Option<(int, int)> {
    if d.len() >= 24 && d.subrange(0, 8) == png_signature() {
        Some((be32(d[16], d[17], d[18], d[19]), be32(d[20], d[21], d[22], d[23])))
    } else if d.len() >= 10 && (d.subrange(0, 6) == gif87a() || d.subrange(0, 6) == gif89a()) {
        Some((d[7] * 256 + d[6], d[9] * 256 + d[8]))
    } else if d.len() >= 4 && d[0] == 0xff && d[1] == 0xd8 {
        jpeg_scan(d, 2)
    } else {
        None
    }
}

fn prefix_is(d: &[u8], p: &[u8]) -> (b: bool)
    ensures
        b == (p@.len() <= d@.len() && d@.subrange(0, p@.len() as int) == p@),
{
    if p.len() > d.len() {
        return false;
    }
    let mut k: usize = 0;
    while k < p.len()
        invariant
            p.len() <= d.len(),
            k <= p.len(),
            forall|j: int| 0 <= j < k ==> d@[j] == p@[j],
        decreases p.len() - k,
    {
        if d[k] != p[k] {
            assert(d@.subrange(0, p@.len() as int)[k as int] != p@[k as int]);
            return false;
        }
        k = k + 1;
    }
    assert(d@.subrange(0, p@.len() as int) =~= p@);
    true
}

/// Parse PNG/JPEG/GIF image dimensions from magic bytes.
pub fn image_dimensions(data: &[u8]) -> (r: Option<(u32, u32)>)
    requires
        data@.len() <= isize::MAX,
    ensures
        r matches Some((w, h)) ==> image_dimensions_spec(data@) == Some((w as int, h as int)),
        r is None ==> image_dimensions_spec(data@) is None,
{
    let png: [u8; 8] = [0x89, 0x50, 0x4e, 0x47, 0x0d, 0x0a, 0x1a, 0x0a];
    let g87: [u8; 6] = [0x47, 0x49, 0x46, 0x38, 0x37, 0x61];
    let g89: [u8; 6] = [0x47, 0x49, 0x46, 0x38, 0x39, 0x61];
    assert(png@ =~= png_signature());
    assert(g87@ =~= gif87a());
    assert(g89@ =~= gif89a());
    if data.len() >= 24 && prefix_is(data, &png) {
        let w = ((data[16] as u32 * 256 + data[17] as u32) * 256 + data[18] as u32) * 256 + data[19] as u32;
        let h = ((data[20] as u32 * 256 + data[21] as u32) * 256 + data[22] as u32) * 256 + data[23] as u32;
        return Some((w, h));
    }
    if data.len() >= 10 && (prefix_is(data, &g87) || prefix_is(data, &g89)) {
        let w = data[7] as u32 * 256 + data[6] as u32;
        let h = data[9] as u32 * 256 + data[8] as u32;
        return Some((w, h));
    }
    if data.len() >= 4 && data[0] == 0xff && data[1] == 0xd8 {
        let mut i: usize = 2;
        while i < data.len() && data.len() - i > 9
            invariant
                2 <= i,
                data@.len() <= isize::MAX,
                jpeg_scan(data@, 2) == jpeg_scan(data@, i as int),
                image_dimensions_spec(data@) == jpeg_scan(data@, 2),
            decreases data.len() - i,
        {
            if data[i] != 0xff {
                i = i + 1;
            } else {
                let marker = data[i + 1];
                if marker == 0xff || (0xd0 <= marker && marker <= 0xd9) {
                    i = i + 2;
                } else if (0xc0 <= marker && marker <= 0xc3) || (0xc5 <= marker && marker <= 0xc7)
                    || (0xc9 <= marker && marker <= 0xcb) || (0xcd <= marker && marker <= 0xcf) {
                    let h = data[i + 5] as u32 * 256 + data[i + 6] as u32;
                    let w = data[i + 7] as u32 * 256 + data[i + 8] as u32;
                    assert(is_sof_marker(marker));
                    assert(jpeg_scan(data@, i as int) == Some((w as int, h as int)));
                    return Some((w, h));
                } else {
                    let seg_len = data[i + 2] as usize * 256 + data[i + 3] as usize;
                    let next = i + 2 + seg_len;
                    if next >= data.len() || data.len() - next <= 9 {
                        return None;
                    }
                    i = next;
                }
            }
        }
        assert(jpeg_scan(data@, i as int) is None);
        return None;
    }
    None
}


/// The asset policy: with a cap of zero every body is accepted, and a URL
/// passes the policy only when it parses, its scheme is https (or http
/// with plain http allowed), and the allowlist is empty or one of its
/// globs matches the host.
pub proof fn lemma_asset_policy(limits: AssetLimits, url: Seq<char>, len: int)
    ensures
        limits.max_bytes == 0 ==> !too_large(limits, len),
        url_refusal(limits, url) is None ==> (url_parse(url) matches Ok((scheme, host)) && (
            scheme == https_name() || (scheme == http_name() && limits.allow_http)) && (
            limits.allowlist@.len() == 0 || allowlisted(limits.allowlist@, match host { Some(h) => h, None => Seq::empty() }))),
        (!limits.allow_http && (url_parse(url) matches Ok((scheme, _)) && scheme == http_name()))
            ==> url_refusal(limits, url) is Some,
{
}

/// The allowlist lets a host through when any of its entries matches it,
/// wherever that entry stands in the list: an https URL (or an http URL
/// with plain http allowed) passes the policy exactly when the allowlist
/// is empty or some entry's glob matches the host (a missing host counts
/// as the empty host).
pub proof fn lemma_allowlist_any_entry(limits: AssetLimits, url: Seq<char>, scheme: Seq<char>, host: Option<Seq<char>>, k: int)
    requires
        scheme == https_name() || (scheme == http_name() && limits.allow_http),
    ensures
        (policy_refusal(limits, url, scheme, host) is None) == (limits.allowlist@.len() == 0 || exists|j: int|
            0 <= j < limits.allowlist@.len() && glob_match(
                #[trigger] limits.allowlist@[j]@,
                match host { Some(h) => h, None => Seq::empty() },
            )),
        (0 <= k < limits.allowlist@.len() && glob_match(
            limits.allowlist@[k]@,
            match host { Some(h) => h, None => Seq::empty() },
        )) ==> policy_refusal(limits, url, scheme, host) is None,
{
    assert(https_name() != http_name()) by {
        assert(https_name().len() != http_name().len());
    }
}

} // verus!
