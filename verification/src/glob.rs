//! Host allow-list patterns: `*` matches any run of characters (possibly
//! empty); every other character matches itself.
use vstd::prelude::*;
use crate::text::chars_of;

verus! {

/// Whether `p[i..]` matches `h[j..]` as a glob.
pub open spec fn glob_from(p: Seq<char>, h: Seq<char>, i: int, j: int) -> bool
    decreases p.len() - i + h.len() - j,
{
    if i < 0 || j < 0 || i > p.len() || j > h.len() {
        false
    } else if i == p.len() {
        j == h.len()
    } else if p[i] == '*' {
        glob_from(p, h, i + 1, j) || (j < h.len() && glob_from(p, h, i, j + 1))
    } else {
        j < h.len() && (p[i] == h[j]) && glob_from(p, h, i + 1, j + 1)
    }
}

/// Whether the glob `pattern` matches all of `host`.
pub open spec fn glob_match(pattern: Seq<char>, host: Seq<char>) -> bool {
    glob_from(pattern, host, 0, 0)
}

/// Some split point `k >= j` of the host lets `p[i..]` match `h[k..]`.
pub open spec fn glob_any(p: Seq<char>, h: Seq<char>, i: int, j: int) -> bool {
    exists|k: int| j <= k <= h.len() && #[trigger] glob_from(p, h, i, k)
}

/// Index of the first non-`*` character of `p` at or after `i`.
pub open spec fn skip_stars(p: Seq<char>, i: int) -> int
    decreases p.len() - i,
{
    if 0 <= i < p.len() && p[i] == '*' {
        skip_stars(p, i + 1)
    } else {
        i
    }
}

/// The two-pointer matcher with one remembered star: its state is the
/// pattern and host positions, the last `*` seen and the host position
/// that star was last extended to.
pub open spec fn greedy_from(p: Seq<char>, h: Seq<char>, pi: int, hi: int, star: Option<int>, sh: int) -> bool
    decreases h.len() - sh, h.len() - hi, p.len() - pi,
{
    if !(0 <= sh <= hi <= h.len() && 0 <= pi <= p.len()) {
        false
    } else if hi == h.len() {
        skip_stars(p, pi) == p.len()
    } else if pi < p.len() && p[pi] == '*' {
        greedy_from(p, h, pi + 1, hi, Some(pi), hi)
    } else if pi < p.len() && (p[pi] == h[hi]) {
        greedy_from(p, h, pi + 1, hi + 1, star, sh)
    } else {
        match star {
            Some(s) => if 0 <= s < p.len() {
                greedy_from(p, h, s + 1, sh + 1, star, sh + 1)
            } else {
                false
            },
            None => false,
        }
    }
}

/// What `host_matches_glob` computes.
pub open spec fn host_glob_result(host: Seq<char>, pattern: Seq<char>) -> bool {
    greedy_from(pattern, host, 0, 0, None, 0)
}

// ── Proof that the matcher decides the glob ─────────────────────────────

/// `p[a..b]` holds no `*` and matches `h[c..c + (b - a)]` character by character.
pub open spec fn seg_match(p: Seq<char>, h: Seq<char>, a: int, b: int, c: int) -> bool {
    &&& 0 <= a <= b <= p.len()
    &&& 0 <= c
    &&& c + (b - a) <= h.len()
    &&& forall|q: int| a <= q < b ==> #[trigger] p[q] != '*' && (p[q] == h[c + (q - a)])
}

/// `p[a..b]` holds no `*`.
pub open spec fn star_free(p: Seq<char>, a: int, b: int) -> bool {
    forall|m: int| a <= m < b ==> #[trigger] p[m] != '*'
}

proof fn lemma_star(p: Seq<char>, h: Seq<char>, i: int, j: int)
    requires
        0 <= i < p.len(),
        0 <= j <= h.len(),
        p[i] == '*',
    ensures
        glob_from(p, h, i, j) == glob_any(p, h, i + 1, j),
    decreases h.len() - j,
{
    if glob_from(p, h, i + 1, j) {
        assert(j <= j <= h.len() && glob_from(p, h, i + 1, j));
    }
    if j < h.len() {
        lemma_star(p, h, i, j + 1);
        if glob_any(p, h, i + 1, j + 1) {
            let k = choose|k: int| j + 1 <= k <= h.len() && #[trigger] glob_from(p, h, i + 1, k);
            assert(j <= k <= h.len() && glob_from(p, h, i + 1, k));
        }
        if glob_any(p, h, i + 1, j) {
            let k = choose|k: int| j <= k <= h.len() && #[trigger] glob_from(p, h, i + 1, k);
            if k > j {
                assert(j + 1 <= k <= h.len() && glob_from(p, h, i + 1, k));
            }
        }
    } else {
        if glob_any(p, h, i + 1, j) {
            let k = choose|k: int| j <= k <= h.len() && #[trigger] glob_from(p, h, i + 1, k);
            assert(k == j);
        }
    }
}

/// A star-free stretch of pattern consumes exactly its length of host.
proof fn lemma_star_free_forward(p: Seq<char>, h: Seq<char>, a: int, b: int, k: int)
    requires
        0 <= a <= b <= p.len(),
        0 <= k <= h.len(),
        star_free(p, a, b),
        glob_from(p, h, a, k),
    ensures
        k + (b - a) <= h.len(),
        glob_from(p, h, b, k + (b - a)),
    decreases b - a,
{
    if a < b {
        assert(p[a] != '*');
        lemma_star_free_forward(p, h, a + 1, b, k + 1);
    }
}

/// Matching through a star-free segment that fits the host.
proof fn lemma_seg(p: Seq<char>, h: Seq<char>, a: int, b: int, c: int)
    requires
        seg_match(p, h, a, b, c),
    ensures
        glob_from(p, h, a, c) == glob_from(p, h, b, c + (b - a)),
    decreases b - a,
{
    if a < b {
        assert(p[a] != '*' && (p[a] == h[c]));
        assert(seg_match(p, h, a + 1, b, c + 1)) by {
            assert forall|q: int| a + 1 <= q < b implies #[trigger] p[q] != '*' && (p[q] == h[c + 1 + (q - (a + 1))]) by {
                assert(p[q] != '*' && (p[q] == h[c + (q - a)]));
            }
        }
        lemma_seg(p, h, a + 1, b, c + 1);
    }
}

/// With the host used up, the rest of the pattern matches iff it is all stars.
proof fn lemma_end(p: Seq<char>, h: Seq<char>, i: int)
    requires
        0 <= i <= p.len(),
    ensures
        glob_from(p, h, i, h.len() as int) == (skip_stars(p, i) == p.len()),
    decreases p.len() - i,
{
    if i < p.len() {
        if p[i] == '*' {
            lemma_end(p, h, i + 1);
        }
    }
}

/// The invariant of the matcher: its state accounts for every way the
/// glob could still match.
pub open spec fn greedy_inv(p: Seq<char>, h: Seq<char>, pi: int, hi: int, star: Option<int>, sh: int, target: bool) -> bool {
    &&& 0 <= sh <= hi <= h.len()
    &&& 0 <= pi <= p.len()
    &&& match star {
        None => target == glob_from(p, h, pi, hi),
        Some(s) => {
            &&& 0 <= s < pi
            &&& p[s] == '*'
            &&& pi - (s + 1) == hi - sh
            &&& seg_match(p, h, s + 1, pi, sh)
            &&& target == (glob_from(p, h, pi, hi) || glob_any(p, h, s + 1, sh + 1))
        },
    }
}

proof fn lemma_seg_star_free(p: Seq<char>, h: Seq<char>, a: int, b: int, c: int)
    requires
        seg_match(p, h, a, b, c),
    ensures
        star_free(p, a, b),
{
    assert forall|m: int| a <= m < b implies #[trigger] p[m] != '*' by {
        assert(p[m] != '*' && (p[m] == h[c + (m - a)]));
    }
}

/// Once the current segment cannot be placed later, no later split works.
proof fn lemma_no_later(p: Seq<char>, h: Seq<char>, s: int, pi: int, sh: int)
    requires
        0 <= s < pi <= p.len(),
        seg_match(p, h, s + 1, pi, sh),
        sh + (pi - (s + 1)) == h.len(),
    ensures
        !glob_any(p, h, s + 1, sh + 1),
{
    lemma_seg_star_free(p, h, s + 1, pi, sh);
    if glob_any(p, h, s + 1, sh + 1) {
        let k = choose|k: int| sh + 1 <= k <= h.len() && #[trigger] glob_from(p, h, s + 1, k);
        lemma_star_free_forward(p, h, s + 1, pi, k);
    }
}

/// A later split of an earlier star is covered by the new star at `pi`.
proof fn lemma_new_star_covers(p: Seq<char>, h: Seq<char>, s: int, pi: int, hi: int, sh: int)
    requires
        0 <= s < pi < p.len(),
        p[pi] == '*',
        seg_match(p, h, s + 1, pi, sh),
        pi - (s + 1) == hi - sh,
        hi <= h.len(),
        glob_any(p, h, s + 1, sh + 1),
    ensures
        glob_any(p, h, pi + 1, hi),
{
    lemma_seg_star_free(p, h, s + 1, pi, sh);
    let k = choose|k: int| sh + 1 <= k <= h.len() && #[trigger] glob_from(p, h, s + 1, k);
    lemma_star_free_forward(p, h, s + 1, pi, k);
    let k2 = k + (pi - (s + 1));
    lemma_star(p, h, pi, k2);
    let k3 = choose|k3: int| k2 <= k3 <= h.len() && #[trigger] glob_from(p, h, pi + 1, k3);
    assert(hi <= k3 <= h.len() && glob_from(p, h, pi + 1, k3));
}

proof fn lemma_seg_extend(p: Seq<char>, h: Seq<char>, a: int, b: int, c: int)
    requires
        seg_match(p, h, a, b, c),
        b < p.len(),
        c + (b - a) < h.len(),
        p[b] != '*',
        p[b] == h[c + (b - a)],
    ensures
        seg_match(p, h, a, b + 1, c),
{
    assert forall|q: int| a <= q < b + 1 implies #[trigger] p[q] != '*' && (p[q] == h[c + (q - a)]) by {
        if q < b {
            assert(p[q] != '*' && (p[q] == h[c + (q - a)]));
        }
    }
}

/// Each step of the matcher keeps the invariant, so its answer is the target.
proof fn lemma_greedy(p: Seq<char>, h: Seq<char>, pi: int, hi: int, star: Option<int>, sh: int, target: bool)
    requires
        greedy_inv(p, h, pi, hi, star, sh, target),
    ensures
        greedy_from(p, h, pi, hi, star, sh) == target,
    decreases h.len() - sh, h.len() - hi, p.len() - pi,
{
    if hi == h.len() {
        lemma_end(p, h, pi);
        match star {
            Some(s) => {
                lemma_no_later(p, h, s, pi, sh);
            },
            None => {},
        }
    } else if pi < p.len() && p[pi] == '*' {
        lemma_star(p, h, pi, hi);
        match star {
            Some(s) => {
                if glob_any(p, h, s + 1, sh + 1) {
                    lemma_new_star_covers(p, h, s, pi, hi, sh);
                }
            },
            None => {},
        }
        assert(glob_any(p, h, pi + 1, hi) == (glob_from(p, h, pi + 1, hi) || glob_any(p, h, pi + 1, hi + 1))) by {
            if glob_any(p, h, pi + 1, hi) {
                let k = choose|k: int| hi <= k <= h.len() && #[trigger] glob_from(p, h, pi + 1, k);
                if k > hi {
                    assert(hi + 1 <= k <= h.len() && glob_from(p, h, pi + 1, k));
                }
            }
            if glob_any(p, h, pi + 1, hi + 1) {
                let k = choose|k: int| hi + 1 <= k <= h.len() && #[trigger] glob_from(p, h, pi + 1, k);
                assert(hi <= k <= h.len() && glob_from(p, h, pi + 1, k));
            }
        }
        assert(seg_match(p, h, pi + 1, pi + 1, hi));
        lemma_greedy(p, h, pi + 1, hi, Some(pi), hi, target);
    } else if pi < p.len() && (p[pi] == h[hi]) {
        match star {
            Some(s) => {
                lemma_seg_extend(p, h, s + 1, pi, sh);
            },
            None => {},
        }
        lemma_greedy(p, h, pi + 1, hi + 1, star, sh, target);
    } else {
        assert(!glob_from(p, h, pi, hi));
        match star {
            Some(s) => {
                assert(glob_any(p, h, s + 1, sh + 1) == (glob_from(p, h, s + 1, sh + 1) || glob_any(p, h, s + 1, sh + 2))) by {
                    if glob_any(p, h, s + 1, sh + 1) {
                        let k = choose|k: int| sh + 1 <= k <= h.len() && #[trigger] glob_from(p, h, s + 1, k);
                        if k > sh + 1 {
                            assert(sh + 2 <= k <= h.len() && glob_from(p, h, s + 1, k));
                        }
                    }
                    if glob_any(p, h, s + 1, sh + 2) {
                        let k = choose|k: int| sh + 2 <= k <= h.len() && #[trigger] glob_from(p, h, s + 1, k);
                        assert(sh + 1 <= k <= h.len() && glob_from(p, h, s + 1, k));
                    }
                }
                assert(seg_match(p, h, s + 1, s + 1, sh + 1));
                lemma_greedy(p, h, s + 1, sh + 1, star, sh + 1, target);
            },
            None => {},
        }
    }
}

/// The matcher decides exactly the glob: `*` matches any run of
/// characters, every other character matches itself.
pub proof fn lemma_host_glob_is_glob(host: Seq<char>, pattern: Seq<char>)
    ensures
        host_glob_result(host, pattern) == glob_match(pattern, host),
{
    lemma_greedy(pattern, host, 0, 0, None, 0, glob_match(pattern, host));
}

/// Simple glob match for host allowlist entries: `*` matches any sequence
/// (including empty); everything else is matched literally.
pub fn host_matches_glob(host: &str, pattern: &str) -> (r: bool)
    ensures
        r == host_glob_result(host@, pattern@),
        r == glob_match(pattern@, host@),
{
    let p = chars_of(pattern);
    let h = chars_of(host);
    let mut pi: usize = 0;
    let mut hi: usize = 0;
    let mut star: Option<usize> = None;
    let mut star_h: usize = 0;
    let ghost target = host_glob_result(host@, pattern@);
    while hi < h.len()
        invariant
            p@ == pattern@,
            h@ == host@,
            star_h <= hi <= h.len(),
            pi <= p.len(),
            star matches Some(s) ==> s < p.len(),
            target == host_glob_result(host@, pattern@),
            greedy_from(p@, h@, pi as int, hi as int, match star { Some(s) => Some(s as int), None => None }, star_h as int) == target,
        decreases h.len() - star_h, h.len() - hi, p.len() - pi,
    {
        if pi < p.len() && p[pi] == '*' {
            star = Some(pi);
            star_h = hi;
            pi = pi + 1;
        } else if pi < p.len() && (p[pi] == h[hi]) {
            pi = pi + 1;
            hi = hi + 1;
        } else if let Some(s) = star {
            pi = s + 1;
            star_h = star_h + 1;
            hi = star_h;
        } else {
            assert(!greedy_from(p@, h@, pi as int, hi as int, None, star_h as int));
            proof {
                lemma_host_glob_is_glob(host@, pattern@);
            }
            return false;
        }
    }
    while pi < p.len() && p[pi] == '*'
        invariant
            pi <= p.len(),
            target == host_glob_result(host@, pattern@),
            greedy_from(p@, h@, pi as int, hi as int, match star { Some(s) => Some(s as int), None => None }, star_h as int) == target,
            hi == h.len(),
            star_h <= hi,
            p@ == pattern@,
            h@ == host@,
        decreases p.len() - pi,
    {
        pi = pi + 1;
    }
    proof {
        lemma_host_glob_is_glob(host@, pattern@);
    }
    pi == p.len()
}

} // verus!
