//! Character-sequence helpers shared by the HTML and CSS processors.
//!
//! Every processor in this crate reads its input as the sequence of
//! characters of a string (`s@`) and builds its output as a `Vec<char>`,
//! which is turned back into a `String` at the public boundary.
use vstd::prelude::*;

verus! {

/// `p` occurs in `s` starting at index `i`.
pub open spec fn occurs_at(s: Seq<char>, i: int, p: Seq<char>) -> bool {
    &&& 0 <= i
    &&& i + p.len() <= s.len()
    &&& s.subrange(i, i + p.len()) == p
}

/// `p` occurs somewhere in `s`.
pub open spec fn contains_seq(s: Seq<char>, p: Seq<char>) -> bool {
    exists|i: int| occurs_at(s, i, p)
}

/// `s` ends with `p`.
pub open spec fn ends_with(s: Seq<char>, p: Seq<char>) -> bool {
    p.len() <= s.len() && s.subrange(s.len() - p.len(), s.len() as int) == p
}

/// Index of the first occurrence of `p` in `s` at or after `i`.
pub open spec fn find_from(s: Seq<char>, p: Seq<char>, i: int) -> Option<int>
    decreases s.len() + 1 - i,
{
    if i < 0 || i + p.len() > s.len() {
        None
    } else if occurs_at(s, i, p) {
        Some(i)
    } else {
        find_from(s, p, i + 1)
    }
}

/// Index of the last occurrence of `p` in `s` that starts before `i`.
pub open spec fn rfind_before(s: Seq<char>, p: Seq<char>, i: int) -> Option<int>
    decreases i,
{
    if i <= 0 {
        None
    } else if occurs_at(s, i - 1, p) {
        Some(i - 1)
    } else {
        rfind_before(s, p, i - 1)
    }
}

/// Left-to-right replacement of the non-overlapping occurrences of `from`
/// in `s`, scanning from index `i` (what `str::replace` computes; an empty
/// pattern matches at every character boundary).
pub open spec fn replace_from(s: Seq<char>, from: Seq<char>, to: Seq<char>, i: int) -> Seq<char>
    decreases s.len() + 1 - i,
{
    if i < 0 || i > s.len() {
        Seq::empty()
    } else if from.len() == 0 {
        if i == s.len() {
            to
        } else {
            to + seq![s[i]] + replace_from(s, from, to, i + 1)
        }
    } else if i == s.len() {
        Seq::empty()
    } else if occurs_at(s, i, from) {
        to + replace_from(s, from, to, i + from.len())
    } else {
        seq![s[i]] + replace_from(s, from, to, i + 1)
    }
}

/// `s` with every non-overlapping occurrence of `from` replaced by `to`.
pub open spec fn replace_all(s: Seq<char>, from: Seq<char>, to: Seq<char>) -> Seq<char> {
    replace_from(s, from, to, 0)
}

/// Unicode `White_Space` (the set that `char::is_whitespace`, `str::trim`
/// and the `\s` class of regular expressions use).
pub open spec fn is_white_space(c: char) -> bool {
    let u = c as u32;
    ||| 0x09 <= u <= 0x0d
    ||| u == 0x20
    ||| u == 0x85
    ||| u == 0xa0
    ||| u == 0x1680
    ||| 0x2000 <= u <= 0x200a
    ||| u == 0x2028
    ||| u == 0x2029
    ||| u == 0x202f
    ||| u == 0x205f
    ||| u == 0x3000
}

/// ASCII whitespace as `u8::is_ascii_whitespace` defines it.
pub open spec fn is_ascii_white(c: char) -> bool {
    c == ' ' || c == '\t' || c == '\n' || c == '\x0C' || c == '\r'
}

/// Number of white-space characters at the end of `s`.
pub open spec fn trailing_ws(s: Seq<char>) -> nat
    decreases s.len(),
{
    if s.len() > 0 && is_white_space(s.last()) {
        1 + trailing_ws(s.drop_last())
    } else {
        0
    }
}

/// Number of white-space characters at the start of `s`.
pub open spec fn leading_ws(s: Seq<char>) -> nat
    decreases s.len(),
{
    if s.len() > 0 && is_white_space(s[0]) {
        1 + leading_ws(s.drop_first())
    } else {
        0
    }
}

/// `s` without trailing white space (`str::trim_end`).
pub open spec fn trim_end(s: Seq<char>) -> Seq<char> {
    s.subrange(0, s.len() - trailing_ws(s))
}

/// `s` without leading white space (`str::trim_start`).
pub open spec fn trim_start(s: Seq<char>) -> Seq<char> {
    s.subrange(leading_ws(s) as int, s.len() as int)
}

/// `s` without white space at either end (`str::trim`).
pub open spec fn trim(s: Seq<char>) -> Seq<char> {
    trim_end(trim_start(s))
}

/// The decimal digit character for `d < 10`.
pub open spec fn digit_char(d: nat) -> char {
    if d == 0 { '0' } else if d == 1 { '1' } else if d == 2 { '2' } else if d == 3 { '3' }
    else if d == 4 { '4' } else if d == 5 { '5' } else if d == 6 { '6' } else if d == 7 { '7' }
    else if d == 8 { '8' } else { '9' }
}

/// Decimal notation of `n`, as `format!("{}", n)` writes it.
pub open spec fn decimal(n: nat) -> Seq<char>
    decreases n,
{
    if n < 10 {
        seq![digit_char(n)]
    } else {
        decimal(n / 10).push(digit_char(n % 10))
    }
}

/// The digits of a decimal numeral are never NUL.
pub proof fn lemma_decimal_no_nul(n: nat)
    ensures
        decimal(n).len() >= 1,
        n >= 10 ==> decimal(n).len() >= 2,
        forall|m: int| 0 <= m < decimal(n).len() ==> decimal(n)[m] != '\0',
        forall|m: int| 0 <= m < decimal(n).len() ==> '0' <= #[trigger] decimal(n)[m] <= '9',
    decreases n,
{
    if n >= 10 {
        lemma_decimal_no_nul(n / 10);
    }
}

proof fn lemma_digit_char_injective(a: nat, b: nat)
    requires
        a < 10,
        b < 10,
        digit_char(a) == digit_char(b),
    ensures
        a == b,
{
}

/// Distinct numbers have distinct decimal numerals.
pub proof fn lemma_decimal_injective(a: nat, b: nat)
    requires
        decimal(a) == decimal(b),
    ensures
        a == b,
    decreases a,
{
    lemma_decimal_no_nul(a);
    lemma_decimal_no_nul(b);
    if a >= 10 && b >= 10 {
        assert(decimal(a).drop_last() == decimal(a / 10));
        assert(decimal(b).drop_last() == decimal(b / 10));
        lemma_decimal_injective(a / 10, b / 10);
        assert(decimal(a).last() == digit_char(a % 10));
        assert(decimal(b).last() == digit_char(b % 10));
        lemma_digit_char_injective((a % 10) as nat, (b % 10) as nat);
        assert(a == (a / 10) * 10 + a % 10);
        assert(b == (b / 10) * 10 + b % 10);
    } else if a < 10 && b < 10 {
        assert(decimal(a) == seq![digit_char(a)]);
        assert(decimal(b) == seq![digit_char(b)]);
        assert(decimal(a)[0] == decimal(b)[0]);
        assert(digit_char(a) == decimal(a)[0]);
        assert(digit_char(b) == decimal(b)[0]);
        lemma_digit_char_injective(a, b);
    } else if a < 10 {
        assert(decimal(a).len() == 1);
    } else {
        assert(decimal(b).len() == 1);
    }
}

pub proof fn lemma_trailing_ws_bound(s: Seq<char>)
    ensures
        trailing_ws(s) <= s.len(),
    decreases s.len(),
{
    if s.len() > 0 && is_white_space(s.last()) {
        lemma_trailing_ws_bound(s.drop_last());
    }
}

pub proof fn lemma_leading_ws_bound(s: Seq<char>)
    ensures
        leading_ws(s) <= s.len(),
    decreases s.len(),
{
    if s.len() > 0 && is_white_space(s[0]) {
        lemma_leading_ws_bound(s.drop_first());
    }
}

/// `c` matches the lower-case ASCII pattern character `p` under Unicode
/// simple case folding (ASCII case, plus KELVIN SIGN for `k` and LATIN
/// SMALL LETTER LONG S for `s`).
pub open spec fn ci_eq(c: char, p: char) -> bool {
    ||| c == p
    ||| ('a' <= p <= 'z' && (c as u32) + 32 == (p as u32))
    ||| (p == 'k' && c == '\u{212A}')
    ||| (p == 's' && c == '\u{17F}')
}

/// `p` (lower-case ASCII) occurs at `i` in `s`, ignoring case.
pub open spec fn ci_occurs_at(s: Seq<char>, i: int, p: Seq<char>) -> bool {
    &&& 0 <= i
    &&& i + p.len() <= s.len()
    &&& forall|m: int| 0 <= m < p.len() ==> ci_eq(#[trigger] s[i + m], p[m])
}

/// First index at or after `i` where `p` occurs in `s`, ignoring case.
pub open spec fn ci_find_from(s: Seq<char>, p: Seq<char>, i: int) -> Option<int>
    decreases s.len() + 1 - i,
{
    if i < 0 || i + p.len() > s.len() {
        None
    } else if ci_occurs_at(s, i, p) {
        Some(i)
    } else {
        ci_find_from(s, p, i + 1)
    }
}

/// End of the run of white space that starts at `i`.
pub open spec fn ws_end(s: Seq<char>, i: int) -> int
    decreases s.len() - i,
{
    if 0 <= i < s.len() && is_white_space(s[i]) {
        ws_end(s, i + 1)
    } else {
        i
    }
}

pub proof fn lemma_ws_end(s: Seq<char>, i: int)
    requires
        0 <= i <= s.len(),
    ensures
        i <= ws_end(s, i) <= s.len(),
        forall|m: int| i <= m < ws_end(s, i) ==> is_white_space(#[trigger] s[m]),
        ws_end(s, i) < s.len() ==> !is_white_space(s[ws_end(s, i)]),
    decreases s.len() - i,
{
    if i < s.len() && is_white_space(s[i]) {
        lemma_ws_end(s, i + 1);
    }
}

pub fn ci_eq_exec(c: char, p: char) -> (b: bool)
    ensures
        b == ci_eq(c, p),
{
    c == p || ('a' <= p && p <= 'z' && (c as u32) + 32 == (p as u32)) || (p == 'k' && c
        == '\u{212A}') || (p == 's' && c == '\u{17F}')
}

pub fn ci_occurs_at_exec(v: &Vec<char>, i: usize, p: &Vec<char>) -> (b: bool)
    ensures
        b == ci_occurs_at(v@, i as int, p@),
{
    if i > v.len() || p.len() > v.len() - i {
        return false;
    }
    let mut k: usize = 0;
    while k < p.len()
        invariant
            i + p.len() <= v.len(),
            k <= p.len(),
            forall|m: int| 0 <= m < k ==> ci_eq(#[trigger] v@[i + m], p@[m]),
        decreases p.len() - k,
    {
        if !ci_eq_exec(v[i + k], p[k]) {
            return false;
        }
        k = k + 1;
    }
    true
}

pub fn ci_find_from_exec(v: &Vec<char>, p: &Vec<char>, i: usize) -> (r: Option<usize>)
    ensures
        r matches Some(j) ==> ci_find_from(v@, p@, i as int) == Some(j as int),
        r is None ==> ci_find_from(v@, p@, i as int) is None,
{
    let mut j = i;
    while j <= v.len() && p.len() <= v.len() - j
        invariant
            i <= j,
            ci_find_from(v@, p@, i as int) == ci_find_from(v@, p@, j as int),
        decreases v.len() + 1 - j,
    {
        if ci_occurs_at_exec(v, j, p) {
            return Some(j);
        }
        assert(p@.len() > 0);
        j = j + 1;
    }
    None
}

/// End of the run of white space starting at `i`.
pub fn ws_end_exec(v: &Vec<char>, i: usize) -> (r: usize)
    requires
        i <= v.len(),
    ensures
        r == ws_end(v@, i as int),
{
    let mut j = i;
    while j < v.len() && is_white_space_exec(v[j])
        invariant
            i <= j <= v.len(),
            ws_end(v@, i as int) == ws_end(v@, j as int),
        decreases v.len() - j,
    {
        j = j + 1;
    }
    j
}

/// The character sequences of a sequence of character vectors.
pub open spec fn seq_views(v: Seq<Vec<char>>) -> Seq<Seq<char>> {
    v.map_values(|x: Vec<char>| x@)
}

/// Appends one character to a string with `String::push`. Claimed: the
/// string gains exactly that character at its end.
#[verifier::external_body]
pub(crate) fn push_char(s: &mut String, c: char)
    ensures
        final(s)@ == old(s)@.push(c),
{
    s.push(c);
}

/// The characters of a string slice, in order.
pub fn chars_of(s: &str) -> (v: Vec<char>)
    ensures
        v@ == s@,
{
    let mut v: Vec<char> = Vec::new();
    broadcast use vstd::string::group_string_axioms;
    for c in it: s.chars()
        invariant
            v@ == it.seq().take(it.index() as int),
            it.seq() == s@,
    {
        v.push(c);
    }
    v
}

/// The string made of the characters of `v`.
pub fn string_of(v: &Vec<char>) -> (s: String)
    ensures
        s@ == v@,
{
    let mut s = String::new();
    let mut i: usize = 0;
    while i < v.len()
        invariant
            i <= v.len(),
            s@ == v@.take(i as int),
        decreases v.len() - i,
    {
        push_char(&mut s, v[i]);
        i = i + 1;
        assert(s@ == v@.take(i as int));
    }
    assert(v@.take(v.len() as int) == v@);
    s
}

/// Appends `v[from..to]` to `out`.
pub fn push_range(out: &mut Vec<char>, v: &Vec<char>, from: usize, to: usize)
    requires
        from <= to <= v.len(),
    ensures
        final(out)@ == old(out)@ + v@.subrange(from as int, to as int),
{
    let mut i = from;
    while i < to
        invariant
            from <= i <= to <= v.len(),
            out@ == old(out)@ + v@.subrange(from as int, i as int),
        decreases to - i,
    {
        out.push(v[i]);
        i = i + 1;
        assert(out@ == old(out)@ + v@.subrange(from as int, i as int));
    }
}

/// Appends all of `v` to `out`.
pub fn push_all(out: &mut Vec<char>, v: &Vec<char>)
    ensures
        final(out)@ == old(out)@ + v@,
{
    push_range(out, v, 0, v.len());
    assert(v@.subrange(0, v.len() as int) == v@);
}

/// Appends the characters of `s` to `out`.
pub fn push_str(out: &mut Vec<char>, s: &str)
    ensures
        final(out)@ == old(out)@ + s@,
{
    let v = chars_of(s);
    push_all(out, &v);
}

/// Whether `v` holds exactly the characters of `s`.
pub fn eq_str(v: &Vec<char>, s: &str) -> (b: bool)
    ensures
        b == (v@ == s@),
{
    let w = chars_of(s);
    let r = v.len() == w.len() && occurs_at_exec(v, 0, &w);
    proof {
        if v.len() == w.len() {
            assert(v@.subrange(0, v.len() as int) =~= v@);
        }
    }
    r
}

/// Whether `p` occurs in `v` at index `i`.
pub fn occurs_at_exec(v: &Vec<char>, i: usize, p: &Vec<char>) -> (b: bool)
    ensures
        b == occurs_at(v@, i as int, p@),
{
    if i > v.len() || p.len() > v.len() - i {
        return false;
    }
    let mut k: usize = 0;
    while k < p.len()
        invariant
            i + p.len() <= v.len(),
            k <= p.len(),
            forall|j: int| 0 <= j < k ==> v@[i + j] == p@[j],
        decreases p.len() - k,
    {
        if v[i + k] != p[k] {
            assert(v@.subrange(i as int, i + p.len())[k as int] != p@[k as int]);
            return false;
        }
        k = k + 1;
    }
    assert(v@.subrange(i as int, i + p.len()) =~= p@);
    true
}

/// The first index at or after `i` where `p` occurs in `v`.
pub fn find_from_exec(v: &Vec<char>, p: &Vec<char>, i: usize) -> (r: Option<usize>)
    ensures
        r matches Some(j) ==> find_from(v@, p@, i as int) == Some(j as int),
        r is None ==> find_from(v@, p@, i as int) is None,
{
    let mut j = i;
    while j <= v.len() && p.len() <= v.len() - j
        invariant
            i <= j,
            find_from(v@, p@, i as int) == find_from(v@, p@, j as int),
        decreases v.len() + 1 - j,
    {
        if occurs_at_exec(v, j, p) {
            return Some(j);
        }
        assert(p@.len() > 0) by {
            if p@.len() == 0 {
                assert(v@.subrange(j as int, j as int) =~= p@);
            }
        }
        j = j + 1;
    }
    None
}

/// Whether `p` occurs anywhere in `v`.
pub fn contains_exec(v: &Vec<char>, p: &Vec<char>) -> (b: bool)
    ensures
        b == contains_seq(v@, p@),
{
    let r = find_from_exec(v, p, 0);
    proof {
        lemma_find_from_contains(v@, p@, 0);
    }
    r.is_some()
}

/// `find_from` finds an occurrence exactly when one exists at or after `i`,
/// and it finds the first one.
pub proof fn lemma_find_from(s: Seq<char>, p: Seq<char>, i: int)
    requires
        0 <= i,
    ensures
        find_from(s, p, i) matches Some(j) ==> i <= j && occurs_at(s, j, p) && forall|k: int|
            i <= k < j ==> !occurs_at(s, k, p),
        find_from(s, p, i) is None ==> forall|k: int| i <= k ==> !occurs_at(s, k, p),
    decreases s.len() + 1 - i,
{
    if i + p.len() > s.len() {
    } else if occurs_at(s, i, p) {
    } else {
        lemma_find_from(s, p, i + 1);
    }
}

/// Searching for a single character `c` from `a` stops at the first `c`.
pub proof fn lemma_find_char(s: Seq<char>, c: char, a: int, g: int)
    requires
        0 <= a <= g <= s.len(),
        forall|q: int| a <= q < g ==> s[q] != c,
        g < s.len() ==> s[g] == c,
    ensures
        g < s.len() ==> find_from(s, seq![c], a) == Some(g),
        g == s.len() ==> find_from(s, seq![c], a) is None,
    decreases g - a,
{
    if a < g {
        assert(s.subrange(a, a + 1)[0] == s[a]);
        lemma_find_char(s, c, a + 1, g);
    } else if g < s.len() {
        assert(s.subrange(g, g + 1) =~= seq![c]);
    }
}

pub proof fn lemma_find_from_contains(s: Seq<char>, p: Seq<char>, i: int)
    requires
        i == 0,
    ensures
        find_from(s, p, i) is Some <==> contains_seq(s, p),
{
    lemma_find_from(s, p, i);
    if find_from(s, p, i) is Some {
        let j = find_from(s, p, i)->0;
        assert(occurs_at(s, j, p));
    }
}

/// Replaces every non-overlapping occurrence of `from` in `v` by `to`.
pub fn replace_all_exec(v: &Vec<char>, from: &Vec<char>, to: &Vec<char>) -> (r: Vec<char>)
    ensures
        r@ == replace_all(v@, from@, to@),
{
    let mut out: Vec<char> = Vec::new();
    let mut i: usize = 0;
    if from.len() == 0 {
        while i < v.len()
            invariant
                from@.len() == 0,
                i <= v.len(),
                out@ + replace_from(v@, from@, to@, i as int) == replace_all(v@, from@, to@),
            decreases v.len() - i,
        {
            push_all(&mut out, to);
            out.push(v[i]);
            assert(out@ + replace_from(v@, from@, to@, i + 1) == replace_all(v@, from@, to@));
            i = i + 1;
        }
        push_all(&mut out, to);
        return out;
    }
    while i < v.len()
        invariant
            from@.len() > 0,
            i <= v.len(),
            out@ + replace_from(v@, from@, to@, i as int) == replace_all(v@, from@, to@),
        decreases v.len() - i,
    {
        if occurs_at_exec(v, i, from) {
            push_all(&mut out, to);
            assert(out@ + replace_from(v@, from@, to@, i + from.len()) == replace_all(
                v@,
                from@,
                to@,
            ));
            i = i + from.len();
        } else {
            out.push(v[i]);
            assert(out@ + replace_from(v@, from@, to@, i + 1) == replace_all(v@, from@, to@));
            i = i + 1;
        }
    }
    assert(replace_from(v@, from@, to@, i as int) == Seq::<char>::empty());
    out
}

/// Once no occurrence of `f` starts in `[a, b)`, scanning from `a` copies
/// `s[a..b]` unchanged.
pub proof fn lemma_replace_skip(s: Seq<char>, f: Seq<char>, t: Seq<char>, a: int, b: int)
    requires
        f.len() > 0,
        0 <= a <= b <= s.len(),
        forall|q: int| a <= q < b ==> !occurs_at(s, q, f),
    ensures
        replace_from(s, f, t, a) == s.subrange(a, b) + replace_from(s, f, t, b),
    decreases b - a,
{
    if a < b {
        lemma_replace_skip(s, f, t, a + 1, b);
        assert(s.subrange(a, b) == seq![s[a]] + s.subrange(a + 1, b));
    } else {
        assert(s.subrange(a, b) =~= Seq::<char>::empty());
    }
}

/// With no occurrence of `f` at or after `a`, scanning from `a` copies the rest.
pub proof fn lemma_replace_none(s: Seq<char>, f: Seq<char>, t: Seq<char>, a: int)
    requires
        f.len() > 0,
        0 <= a <= s.len(),
        forall|q: int| a <= q ==> !occurs_at(s, q, f),
    ensures
        replace_from(s, f, t, a) == s.subrange(a, s.len() as int),
{
    lemma_replace_skip(s, f, t, a, s.len() as int);
    assert(s.subrange(a, s.len() as int) + Seq::<char>::empty() == s.subrange(a, s.len() as int));
}

/// Whether `c` is Unicode white space.
pub fn is_white_space_exec(c: char) -> (b: bool)
    ensures
        b == is_white_space(c),
{
    let u = c as u32;
    (0x09 <= u && u <= 0x0d) || u == 0x20 || u == 0x85 || u == 0xa0 || u == 0x1680 || (0x2000
        <= u && u <= 0x200a) || u == 0x2028 || u == 0x2029 || u == 0x202f || u == 0x205f || u
        == 0x3000
}

/// Whether `c` is ASCII white space.
pub fn is_ascii_white_exec(c: char) -> (b: bool)
    ensures
        b == is_ascii_white(c),
{
    c == ' ' || c == '\t' || c == '\n' || c == '\x0C' || c == '\r'
}

/// `v[from..to]` without surrounding white space, as a new vector.
pub fn trimmed_range(v: &Vec<char>, from: usize, to: usize) -> (r: Vec<char>)
    requires
        from <= to <= v.len(),
    ensures
        r@ == trim(v@.subrange(from as int, to as int)),
{
    let ghost s = v@.subrange(from as int, to as int);
    let mut a = from;
    while a < to && is_white_space_exec(v[a])
        invariant
            from <= a <= to <= v.len(),
            s == v@.subrange(from as int, to as int),
            leading_ws(s) == (a - from) + leading_ws(v@.subrange(a as int, to as int)),
        decreases to - a,
    {
        assert(v@.subrange(a as int, to as int).drop_first() == v@.subrange(a + 1, to as int));
        a = a + 1;
    }
    proof {
        lemma_leading_ws_bound(s);
        assert(trim_start(s) == v@.subrange(a as int, to as int));
    }
    let ghost t = v@.subrange(a as int, to as int);
    let mut b = to;
    while b > a && is_white_space_exec(v[b - 1])
        invariant
            from <= a <= b <= to <= v.len(),
            t == v@.subrange(a as int, to as int),
            trailing_ws(t) == (to - b) + trailing_ws(v@.subrange(a as int, b as int)),
        decreases b - a,
    {
        assert(v@.subrange(a as int, b as int).drop_last() == v@.subrange(a as int, b - 1));
        b = b - 1;
    }
    proof {
        lemma_trailing_ws_bound(t);
    }
    let mut r: Vec<char> = Vec::new();
    push_range(&mut r, v, a, b);
    assert(r@ == trim_end(t));
    r
}

/// Decimal notation of `n`.
pub fn decimal_exec(n: usize) -> (r: Vec<char>)
    ensures
        r@ == decimal(n as nat),
    decreases n,
{
    if n < 10 {
        let mut r: Vec<char> = Vec::new();
        r.push(digit_char_exec(n));
        r
    } else {
        let mut r = decimal_exec(n / 10);
        r.push(digit_char_exec(n % 10));
        r
    }
}

fn digit_char_exec(d: usize) -> (c: char)
    requires
        d < 10,
    ensures
        c == digit_char(d as nat),
{
    if d == 0 { '0' } else if d == 1 { '1' } else if d == 2 { '2' } else if d == 3 { '3' }
    else if d == 4 { '4' } else if d == 5 { '5' } else if d == 6 { '6' } else if d == 7 { '7' }
    else if d == 8 { '8' } else { '9' }
}

/// End of the run of non-white-space characters that starts at `i`.
pub open spec fn word_end(s: Seq<char>, i: int) -> int
    decreases s.len() - i,
{
    if 0 <= i < s.len() && !is_white_space(s[i]) {
        word_end(s, i + 1)
    } else {
        i
    }
}

pub proof fn lemma_word_end(s: Seq<char>, i: int)
    requires
        0 <= i <= s.len(),
    ensures
        i <= word_end(s, i) <= s.len(),
        i < s.len() && !is_white_space(s[i]) ==> i < word_end(s, i),
    decreases s.len() - i,
{
    if i < s.len() && !is_white_space(s[i]) {
        lemma_word_end(s, i + 1);
    }
}

/// The white-space separated words of `s` from `i` on (`split_whitespace`).
pub open spec fn words_from(s: Seq<char>, i: int) -> Seq<Seq<char>>
    decreases s.len() - i,
{
    if i < 0 || i >= s.len() {
        Seq::empty()
    } else {
        let a = ws_end(s, i);
        if a >= s.len() {
            Seq::empty()
        } else {
            proof {
                lemma_ws_end(s, i);
                lemma_word_end(s, a);
            }
            let b = word_end(s, a);
            seq![s.subrange(a, b)] + words_from(s, b)
        }
    }
}

pub open spec fn words(s: Seq<char>) -> Seq<Seq<char>> {
    words_from(s, 0)
}

/// The white-space separated words of `s`.
pub fn words_exec(s: &Vec<char>) -> (r: Vec<Vec<char>>)
    ensures
        seq_views(r@) == words(s@),
{
    let mut out: Vec<Vec<char>> = Vec::new();
    let mut i: usize = 0;
    while i < s.len()
        invariant
            i <= s.len(),
            seq_views(out@) + words_from(s@, i as int) == words(s@),
        decreases s.len() - i,
    {
        let a = ws_end_exec(s, i);
        proof { lemma_ws_end(s@, i as int); }
        if a >= s.len() {
            assert(seq_views(out@) + Seq::<Seq<char>>::empty() == seq_views(out@));
            return out;
        }
        let mut b = a;
        while b < s.len() && !is_white_space_exec(s[b])
            invariant
                a <= b <= s.len(),
                word_end(s@, a as int) == word_end(s@, b as int),
            decreases s.len() - b,
        {
            b = b + 1;
        }
        proof { lemma_word_end(s@, a as int); }
        let mut w: Vec<char> = Vec::new();
        push_range(&mut w, s, a, b);
        let ghost old_out = seq_views(out@);
        out.push(w);
        assert(seq_views(out@) =~= old_out.push(s@.subrange(a as int, b as int)));
        i = b;
    }
    assert(seq_views(out@) + Seq::<Seq<char>>::empty() == seq_views(out@));
    out
}


/// Index of the last occurrence of `p` in `v`.
pub fn rfind_exec(v: &Vec<char>, p: &Vec<char>) -> (r: Option<usize>)
    ensures
        r matches Some(j) ==> rfind_before(v@, p@, v@.len() as int) == Some(j as int),
        r is None ==> rfind_before(v@, p@, v@.len() as int) is None,
{
    let mut i = v.len();
    while i > 0
        invariant
            i <= v.len(),
            rfind_before(v@, p@, v@.len() as int) == rfind_before(v@, p@, i as int),
        decreases i,
    {
        if occurs_at_exec(v, i - 1, p) {
            return Some(i - 1);
        }
        i = i - 1;
    }
    None
}


/// ASCII lower-case of a character; other characters are unchanged.
pub open spec fn ascii_lower(c: char) -> char {
    if 'A' <= c <= 'Z' {
        ((c as u32) + 32) as char
    } else {
        c
    }
}

pub fn ascii_lower_exec(c: char) -> (r: char)
    ensures
        r == ascii_lower(c),
{
    if 'A' <= c && c <= 'Z' {
        let b: u8 = c as u8;
        (b + 32) as char
    } else {
        c
    }
}

} // verus!
