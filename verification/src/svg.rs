//! Text of a PDF as Unicode: parsing the ToUnicode CMaps of its fonts and
//! decoding the glyph codes of its text-showing operators through them.
//! Reading the PDF objects and tracking text positions is the caller's.
use vstd::prelude::*;
use std::collections::BTreeMap;
use crate::text::{
    chars_of, string_of, push_all, push_range, find_from, find_from_exec, lemma_find_from,
    words, words_exec, seq_views, trim, trimmed_range, eq_str, occurs_at, occurs_at_exec, ws_end,
    ws_end_exec, lemma_ws_end,
};

verus! {

// ---------------------------------------------------------------------------
// Outside conversions
// ---------------------------------------------------------------------------

/// The text `String::from_utf8_lossy` makes of a byte string.
pub uninterp spec fn utf8_lossy(bytes: Seq<u8>) -> Seq<char>;

/// Decodes bytes as UTF-8 with `String::from_utf8_lossy`, invalid
/// sequences becoming U+FFFD. Claimed: the result is the named
/// `utf8_lossy` of the bytes.
#[verifier::external_body]
fn decode_utf8_lossy(bytes: &[u8]) -> (r: String)
    ensures
        r@ == utf8_lossy(bytes@),
{
    String::from_utf8_lossy(bytes).into_owned()
}

/// A Unicode scalar value: at most U+10FFFF and not a surrogate.
pub open spec fn scalar(u: int) -> bool {
    0 <= u <= 0x10FFFF && !(0xD800 <= u <= 0xDFFF)
}

/// Calls `char::from_u32`: the character with that code when the code is
/// a Unicode scalar value, `None` otherwise.
#[verifier::external_body]
fn char_from_u32(u: u32) -> (r: Option<char>)
    ensures
        scalar(u as int) ==> r == Some(u as char),
        !scalar(u as int) ==> r is None,
{
    char::from_u32(u)
}

// ---------------------------------------------------------------------------
// Hexadecimal codes
// ---------------------------------------------------------------------------

/// The value of a hexadecimal digit.
pub open spec fn hex_digit_value(c: char) -> Option<nat> {
    if '0' <= c <= '9' {
        Some((c as u32 - '0' as u32) as nat)
    } else if 'a' <= c <= 'f' {
        Some((c as u32 - 'a' as u32 + 10) as nat)
    } else if 'A' <= c <= 'F' {
        Some((c as u32 - 'A' as u32 + 10) as nat)
    } else {
        None
    }
}

/// The value of a string of hexadecimal digits.
pub open spec fn hex_digits_value(s: Seq<char>) -> Option<nat>
    decreases s.len(),
{
    if s.len() == 0 {
        Some(0)
    } else {
        match (hex_digits_value(s.drop_last()), hex_digit_value(s.last())) {
            (Some(a), Some(d)) => Some(a * 16 + d),
            _ => None,
        }
    }
}

/// The value `from_str_radix(s, 16)` gives an unsigned type: an optional
/// `+`, then at least one hexadecimal digit.
pub open spec fn hex_value(s: Seq<char>) -> Option<nat> {
    let body = if s.len() > 0 && s[0] == '+' { s.drop_first() } else { s };
    if body.len() == 0 {
        None
    } else {
        hex_digits_value(body)
    }
}

/// `s` without the `<` and `>` at its ends.
pub open spec fn angle_stripped(s: Seq<char>) -> Seq<char> {
    s.subrange(angle_start(s, 0), angle_end(s, s.len() as int, angle_start(s, 0)))
}

pub open spec fn is_angle(c: char) -> bool {
    c == '<' || c == '>'
}

pub open spec fn angle_start(s: Seq<char>, i: int) -> int
    decreases s.len() - i,
{
    if 0 <= i < s.len() && is_angle(s[i]) {
        angle_start(s, i + 1)
    } else {
        i
    }
}

pub open spec fn angle_end(s: Seq<char>, j: int, lo: int) -> int
    decreases j - lo,
{
    if lo < j <= s.len() && is_angle(s[j - 1]) {
        angle_end(s, j - 1, lo)
    } else {
        j
    }
}

/// A 16-bit code written `<XXXX>`.
pub open spec fn hex_u16(s: Seq<char>) -> Option<u16> {
    match hex_value(angle_stripped(s)) {
        Some(v) => if v < 0x10000 { Some(v as u16) } else { None },
        None => None,
    }
}

/// A 32-bit code written `<XXXXXXXX>`.
pub open spec fn hex_u32(s: Seq<char>) -> Option<u32> {
    match hex_value(angle_stripped(s)) {
        Some(v) => if v < 0x1_0000_0000 { Some(v as u32) } else { None },
        None => None,
    }
}

/// The character a `<XXXX>` or `<XXXXXXXX>` code stands for: a UTF-16
/// surrogate pair (high surrogate in the upper half, low in the lower)
/// gives the supplementary character; any other code is taken as a scalar
/// value.
pub open spec fn hex_char(s: Seq<char>) -> Option<char> {
    match hex_u32(s) {
        Some(v) => {
            let hi = v as int / 0x10000;
            let lo = v as int % 0x10000;
            if 0xD800 <= hi <= 0xDBFF && 0xDC00 <= lo <= 0xDFFF {
                let u = 0x10000 + (hi - 0xD800) * 1024 + (lo - 0xDC00);
                if scalar(u) { Some(u as char) } else { None }
            } else if scalar(v as int) {
                Some(v as char)
            } else {
                None
            }
        },
        None => None,
    }
}

fn angle_stripped_exec(s: &Vec<char>) -> (r: Vec<char>)
    ensures
        r@ == angle_stripped(s@),
{
    let mut a: usize = 0;
    while a < s.len() && (s[a] == '<' || s[a] == '>')
        invariant
            a <= s.len(),
            angle_start(s@, 0) == angle_start(s@, a as int),
        decreases s.len() - a,
    {
        a = a + 1;
    }
    let mut b: usize = s.len();
    while b > a && (s[b - 1] == '<' || s[b - 1] == '>')
        invariant
            a <= b <= s.len(),
            angle_start(s@, 0) == a,
            angle_end(s@, s@.len() as int, a as int) == angle_end(s@, b as int, a as int),
        decreases b - a,
    {
        b = b - 1;
    }
    let mut out: Vec<char> = Vec::new();
    push_range(&mut out, s, a, b);
    out
}

fn hex_digit_exec(c: char) -> (r: Option<u64>)
    ensures
        match r {
            Some(d) => hex_digit_value(c) == Some(d as nat) && d < 16,
            None => hex_digit_value(c) is None,
        },
{
    if '0' <= c && c <= '9' {
        Some((c as u32 - '0' as u32) as u64)
    } else if 'a' <= c && c <= 'f' {
        Some((c as u32 - 'a' as u32 + 10) as u64)
    } else if 'A' <= c && c <= 'F' {
        Some((c as u32 - 'A' as u32 + 10) as u64)
    } else {
        None
    }
}

proof fn lemma_hex_digits_grow(s: Seq<char>, t: Seq<char>)
    requires
        hex_digits_value(s) is Some,
    ensures
        hex_digits_value(s + t) matches Some(v) ==> v >= hex_digits_value(s)->0,
    decreases t.len(),
{
    if t.len() > 0 {
        lemma_hex_digits_grow(s, t.drop_last());
        assert((s + t).drop_last() == s + t.drop_last());
    } else {
        assert(s + t == s);
    }
}

/// The value of the hexadecimal code `s` when it is below 2^32.
fn hex_value_u32(s: &Vec<char>) -> (r: Option<u32>)
    ensures
        match r {
            Some(v) => hex_value(s@) == Some(v as nat),
            None => hex_value(s@) is None || hex_value(s@)->0 >= 0x1_0000_0000,
        },
{
    let start: usize = if s.len() > 0 && s[0] == '+' { 1 } else { 0 };
    let ghost body = if s@.len() > 0 && s@[0] == '+' { s@.drop_first() } else { s@ };
    assert(body == s@.subrange(start as int, s@.len() as int));
    if start >= s.len() {
        return None;
    }
    let mut v: u64 = 0;
    let mut big = false;
    let mut i = start;
    while i < s.len()
        invariant
            start <= i <= s.len(),
            start < s.len(),
            body == s@.subrange(start as int, s@.len() as int),
            body == (if s@.len() > 0 && s@[0] == '+' { s@.drop_first() } else { s@ }),
            hex_digits_value(s@.subrange(start as int, i as int)) is Some,
            !big ==> hex_digits_value(s@.subrange(start as int, i as int)) == Some(v as nat),
            !big ==> v < 0x1_0000_0000,
            big ==> hex_digits_value(s@.subrange(start as int, i as int))->0 >= 0x1_0000_0000,
        decreases s.len() - i,
    {
        let ghost pre = s@.subrange(start as int, i as int);
        assert(s@.subrange(start as int, i + 1).drop_last() == pre);
        match hex_digit_exec(s[i]) {
            Some(d) => {
                if !big {
                    let nv = v * 16 + d;
                    if nv >= 0x1_0000_0000 {
                        big = true;
                    } else {
                        v = nv;
                    }
                } else {
                    assert(hex_digits_value(s@.subrange(start as int, i + 1))->0 >= hex_digits_value(pre)->0) by (nonlinear_arith)
                        requires
                            hex_digits_value(s@.subrange(start as int, i + 1))->0 == hex_digits_value(pre)->0 * 16 + d,
                    {
                    }
                }
                i = i + 1;
            },
            None => {
                proof {
                    let rest = s@.subrange(i as int, s@.len() as int);
                    lemma_digits_invalid(pre, s@[i as int], rest.drop_first());
                    assert(body =~= pre.push(s@[i as int]) + rest.drop_first());
                    assert(hex_digits_value(body) is None);
                    assert(body.len() > 0);
                    assert(hex_value(s@) == hex_digits_value(body));
                }
                return None;
            },
        }
    }
    if big {
        return None;
    }
    assert(s@.subrange(start as int, s@.len() as int) == body);
    Some(v as u32)
}

/// A string with an invalid digit has no value.
proof fn lemma_digits_invalid(pre: Seq<char>, c: char, rest: Seq<char>)
    requires
        hex_digit_value(c) is None,
    ensures
        hex_digits_value(pre.push(c) + rest) is None,
    decreases rest.len(),
{
    if rest.len() > 0 {
        lemma_digits_invalid(pre, c, rest.drop_last());
        assert((pre.push(c) + rest).drop_last() == pre.push(c) + rest.drop_last());
    } else {
        assert(pre.push(c) + rest == pre.push(c));
    }
}

pub fn hex_to_u16(s: &str) -> (r: Option<u16>)
    ensures
        r == hex_u16(s@),
{
    let v = angle_stripped_exec(&chars_of(s));
    match hex_value_u32(&v) {
        Some(x) => if x < 0x10000 { Some(x as u16) } else { None },
        None => None,
    }
}

pub fn hex_to_u32(s: &str) -> (r: Option<u32>)
    ensures
        r == hex_u32(s@),
{
    let v = angle_stripped_exec(&chars_of(s));
    hex_value_u32(&v)
}

pub fn hex_to_char(s: &str) -> (r: Option<char>)
    ensures
        r == hex_char(s@),
{
    match hex_to_u32(s) {
        Some(v) => {
            let hi = v / 0x10000;
            let lo = v % 0x10000;
            if 0xD800 <= hi && hi <= 0xDBFF && 0xDC00 <= lo && lo <= 0xDFFF {
                let u = 0x10000 + (hi - 0xD800) * 1024 + (lo - 0xDC00);
                char_from_u32(u)
            } else {
                char_from_u32(v)
            }
        },
        None => None,
    }
}


// ---------------------------------------------------------------------------
// ToUnicode CMaps
// ---------------------------------------------------------------------------

/// The text between the first `begin` and the first `end` after it.
pub open spec fn section(s: Seq<char>, begin: Seq<char>, end: Seq<char>) -> Option<Seq<char>> {
    match find_from(s, begin, 0) {
        Some(i) => match find_from(s, end, i + begin.len()) {
            Some(j) => Some(s.subrange(i + begin.len(), j)),
            None => None,
        },
        None => None,
    }
}

/// The lines of `s` from `i` on (split at each `\n`).
pub open spec fn lines_from(s: Seq<char>, i: int) -> Seq<Seq<char>>
    decreases s.len() + 1 - i,
{
    if i < 0 || i > s.len() {
        Seq::empty()
    } else {
        match find_from(s, "\n"@, i) {
            Some(k) => {
                proof {
                    reveal_strlit("\n");
                    lemma_find_from(s, "\n"@, i);
                }
                seq![s.subrange(i, k)] + lines_from(s, k + 1)
            },
            None => seq![s.subrange(i, s.len() as int)],
        }
    }
}

/// The entry of a `bfchar` line `<code> <unicode>`, if both parse.
pub open spec fn char_entry(ws: Seq<Seq<char>>) -> Seq<(u16, char)> {
    if ws.len() >= 2 {
        match (hex_u16(ws[0]), hex_char(ws[1])) {
            (Some(c), Some(ch)) => seq![(c, ch)],
            _ => Seq::empty(),
        }
    } else {
        Seq::empty()
    }
}

/// The numbers of a `bfrange` line `<first> <last> <unicode>`, if all parse.
pub open spec fn range_line(ws: Seq<Seq<char>>) -> Option<(u16, u16, u32)> {
    if ws.len() >= 3 {
        match (hex_u16(ws[0]), hex_u16(ws[1]), hex_u32(ws[2])) {
            (Some(a), Some(b), Some(c)) => Some((a, b, c)),
            _ => None,
        }
    } else {
        None
    }
}

/// A `bfrange` line whose range can be walked: it does not run backwards
/// and its last character code stays within 32 bits.
pub open spec fn range_line_ok(ws: Seq<Seq<char>>) -> bool {
    match range_line(ws) {
        Some((a, b, c)) => a <= b && c + (b - a) <= u32::MAX,
        None => true,
    }
}

/// The first `n` entries of a range: code `first + k` to character
/// `unicode + k`, where that is a character.
pub open spec fn range_entries(first: int, unicode: int, n: int) -> Seq<(u16, char)>
    decreases n,
{
    if n <= 0 {
        Seq::empty()
    } else {
        range_entries(first, unicode, n - 1) + if scalar(unicode + n - 1) {
            seq![((first + n - 1) as u16, (unicode + n - 1) as char)]
        } else {
            Seq::empty()
        }
    }
}

/// The entries of a `bfrange` line.
pub open spec fn range_line_entries(ws: Seq<Seq<char>>) -> Seq<(u16, char)> {
    match range_line(ws) {
        Some((a, b, c)) => range_entries(a as int, c as int, b - a + 1),
        None => Seq::empty(),
    }
}

/// The `bfchar` entries of a list of lines, in order.
pub open spec fn char_entries(lines: Seq<Seq<char>>) -> Seq<(u16, char)>
    decreases lines.len(),
{
    if lines.len() == 0 {
        Seq::empty()
    } else {
        char_entries(lines.drop_last()) + char_entry(words(lines.last()))
    }
}

/// The `bfrange` entries of a list of lines, in order.
pub open spec fn range_entries_of(lines: Seq<Seq<char>>) -> Seq<(u16, char)>
    decreases lines.len(),
{
    if lines.len() == 0 {
        Seq::empty()
    } else {
        range_entries_of(lines.drop_last()) + range_line_entries(words(lines.last()))
    }
}

/// Every `bfrange` line can be walked.
pub open spec fn ranges_ok(lines: Seq<Seq<char>>) -> bool {
    forall|k: int| 0 <= k < lines.len() ==> range_line_ok(words(#[trigger] lines[k]))
}

/// The `bfchar` section's entries followed by the `bfrange` section's.
pub open spec fn cmap_entries(s: Seq<char>) -> Seq<(u16, char)> {
    (match section(s, "beginbfchar"@, "endbfchar"@) {
        Some(sec) => char_entries(lines_from(sec, 0)),
        None => Seq::empty(),
    }) + (match section(s, "beginbfrange"@, "endbfrange"@) {
        Some(sec) => range_entries_of(lines_from(sec, 0)),
        None => Seq::empty(),
    })
}

/// The ranges of the CMap can all be walked.
pub open spec fn cmap_ok(s: Seq<char>) -> bool {
    match section(s, "beginbfrange"@, "endbfrange"@) {
        Some(sec) => ranges_ok(lines_from(sec, 0)),
        None => true,
    }
}

/// The map that inserting the entries in order builds: a later entry for a
/// code replaces an earlier one.
pub open spec fn map_of(es: Seq<(u16, char)>) -> Map<u16, char>
    decreases es.len(),
{
    if es.len() == 0 {
        Map::empty()
    } else {
        map_of(es.drop_last()).insert(es.last().0, es.last().1)
    }
}

fn section_exec(v: &Vec<char>, begin: &str, end: &str) -> (r: Option<Vec<char>>)
    ensures
        match r {
            Some(x) => section(v@, begin@, end@) == Some(x@),
            None => section(v@, begin@, end@) is None,
        },
{
    let b = chars_of(begin);
    let e = chars_of(end);
    let n = v.len();
    match find_from_exec(v, &b, 0) {
        Some(i) => {
            proof { lemma_find_from(v@, b@, 0); }
            match find_from_exec(v, &e, i + b.len()) {
                Some(j) => {
                    proof { lemma_find_from(v@, e@, i + b@.len()); }
                    let mut out: Vec<char> = Vec::new();
                    push_range(&mut out, v, i + b.len(), j);
                    Some(out)
                },
                None => None,
            }
        },
        None => None,
    }
}

fn lines_exec(v: &Vec<char>) -> (r: Vec<Vec<char>>)
    ensures
        seq_views(r@) == lines_from(v@, 0),
{
    let nl = chars_of("\n");
    proof { reveal_strlit("\n"); }
    let mut out: Vec<Vec<char>> = Vec::new();
    let mut i: usize = 0;
    loop
        invariant
            i <= v.len(),
            nl@ == "\n"@,
            nl@.len() == 1,
            seq_views(out@) + lines_from(v@, i as int) == lines_from(v@, 0),
        decreases v.len() - i,
    {
        let ghost before = seq_views(out@);
        match find_from_exec(v, &nl, i) {
            Some(k) => {
                proof { lemma_find_from(v@, nl@, i as int); }
                let mut line: Vec<char> = Vec::new();
                push_range(&mut line, v, i, k);
                out.push(line);
                proof {
                    assert(seq_views(out@) =~= before.push(v@.subrange(i as int, k as int)));
                    assert(seq_views(out@) + lines_from(v@, k + 1) =~= before + lines_from(v@, i as int));
                }
                i = k + 1;
            },
            None => {
                let mut line: Vec<char> = Vec::new();
                push_range(&mut line, v, i, v.len());
                out.push(line);
                proof {
                    assert(seq_views(out@) =~= before.push(v@.subrange(i as int, v@.len() as int)));
                    assert(seq_views(out@) =~= before + lines_from(v@, i as int));
                }
                return out;
            },
        }
    }
}

fn range_line_exec(ws: &Vec<Vec<char>>) -> (r: Option<(u16, u16, u32)>)
    ensures
        r == range_line(seq_views(ws@)),
{
    if ws.len() >= 3 {
        let a = hex_to_u16(string_of(&ws[0]).as_str());
        let b = hex_to_u16(string_of(&ws[1]).as_str());
        let c = hex_to_u32(string_of(&ws[2]).as_str());
        match (a, b, c) {
            (Some(a), Some(b), Some(c)) => Some((a, b, c)),
            _ => None,
        }
    } else {
        None
    }
}

/// Whether every `bfrange` line of the CMap text can be walked.
pub fn cmap_ranges_fit(s: &str) -> (b: bool)
    ensures
        b == cmap_ok(s@),
{
    let v = chars_of(s);
    match section_exec(&v, "beginbfrange", "endbfrange") {
        Some(sec) => {
            let lines = lines_exec(&sec);
            let mut k: usize = 0;
            while k < lines.len()
                invariant
                    k <= lines.len(),
                    seq_views(lines@) == lines_from(sec@, 0),
                    section(s@, "beginbfrange"@, "endbfrange"@) == Some(sec@),
                    forall|j: int| 0 <= j < k ==> range_line_ok(words(#[trigger] seq_views(lines@)[j])),
                decreases lines.len() - k,
            {
                let ws = words_exec(&lines[k]);
                match range_line_exec(&ws) {
                    Some((a, b, c)) => {
                        if !(a <= b && (c as u64) + ((b - a) as u64) <= 0xFFFF_FFFF) {
                            assert(!range_line_ok(words(seq_views(lines@)[k as int])));
                            assert(lines_from(sec@, 0)[k as int] == seq_views(lines@)[k as int]);
                            assert(!ranges_ok(lines_from(sec@, 0)));
                            return false;
                        }
                    },
                    None => {},
                }
                k = k + 1;
            }
            true
        },
        None => true,
    }
}

fn push_entry(m: &mut BTreeMap<u16, char>, k: u16, c: char, ghost_es: Ghost<Seq<(u16, char)>>)
    requires
        old(m)@ == map_of(ghost_es@),
    ensures
        final(m)@ == map_of(ghost_es@.push((k, c))),
{
    m.insert(k, c);
    assert(ghost_es@.push((k, c)).drop_last() =~= ghost_es@);
}

/// The character map of a ToUnicode CMap text whose ranges can all be
/// walked: its `bfchar` entries, then its `bfrange` entries, a later entry
/// for a code replacing an earlier one.
pub fn parse_tounicode_text(s: &str) -> (r: BTreeMap<u16, char>)
    requires
        cmap_ok(s@),
    ensures
        r@ == map_of(cmap_entries(s@)),
{
    let v = chars_of(s);
    let mut m: BTreeMap<u16, char> = BTreeMap::new();
    let ghost mut es: Seq<(u16, char)> = Seq::empty();
    match section_exec(&v, "beginbfchar", "endbfchar") {
        Some(sec) => {
            let lines = lines_exec(&sec);
            let mut k: usize = 0;
            while k < lines.len()
                invariant
                    k <= lines.len(),
                    m@ == map_of(es),
                    es == char_entries(seq_views(lines@).take(k as int)),
                decreases lines.len() - k,
            {
                proof {
                    assert(seq_views(lines@).take(k + 1).drop_last() == seq_views(lines@).take(k as int));
                }
                let ws = words_exec(&lines[k]);
                if ws.len() >= 2 {
                    let code = hex_to_u16(string_of(&ws[0]).as_str());
                    let ch = hex_to_char(string_of(&ws[1]).as_str());
                    match (code, ch) {
                        (Some(c), Some(x)) => {
                            push_entry(&mut m, c, x, Ghost(es));
                            proof { es = es.push((c, x)); }
                        },
                        _ => {},
                    }
                }
                proof {
                    assert(es =~= char_entries(seq_views(lines@).take(k + 1)));
                }
                k = k + 1;
            }
            proof {
                assert(seq_views(lines@).take(lines.len() as int) == seq_views(lines@));
            }
        },
        None => {},
    }
    let ghost chars_part = es;
    match section_exec(&v, "beginbfrange", "endbfrange") {
        Some(sec) => {
            let lines = lines_exec(&sec);
            let mut k: usize = 0;
            while k < lines.len()
                invariant
                    k <= lines.len(),
                    ranges_ok(seq_views(lines@)),
                    m@ == map_of(es),
                    es == chars_part + range_entries_of(seq_views(lines@).take(k as int)),
                decreases lines.len() - k,
            {
                proof {
                    assert(seq_views(lines@).take(k + 1).drop_last() == seq_views(lines@).take(k as int));
                    assert(range_line_ok(words(seq_views(lines@)[k as int])));
                }
                let ws = words_exec(&lines[k]);
                let ghost line_start = es;
                match range_line_exec(&ws) {
                    Some((a, b, c)) => {
                        let n: u16 = b - a;
                        let mut off: u16 = 0;
                        loop
                            invariant_except_break
                                es == line_start + range_entries(a as int, c as int, off as int),
                            invariant
                                a <= b,
                                n == b - a,
                                c + n <= u32::MAX,
                                off <= n,
                                m@ == map_of(es),
                            ensures
                                es == line_start + range_entries(a as int, c as int, n + 1),
                                m@ == map_of(es),
                            decreases n - off,
                        {
                            let ch = char_from_u32(c + off as u32);
                            match ch {
                                Some(x) => {
                                    push_entry(&mut m, a + off, x, Ghost(es));
                                    proof { es = es.push(((a + off) as u16, x)); }
                                },
                                None => {},
                            }
                            proof {
                                assert(es =~= line_start + range_entries(a as int, c as int, off + 1));
                            }
                            if off == n {
                                break;
                            }
                            off = off + 1;
                        }
                        proof {
                            assert(range_line_entries(seq_views(ws@)) == range_entries(a as int, c as int, n + 1));
                        }
                    },
                    None => {},
                }
                proof {
                    assert(es =~= chars_part + range_entries_of(seq_views(lines@).take(k + 1)));
                }
                k = k + 1;
            }
            proof {
                assert(seq_views(lines@).take(lines.len() as int) == seq_views(lines@));
            }
        },
        None => {},
    }
    m
}

/// The character map of a ToUnicode CMap stream, read as UTF-8 (invalid
/// sequences replaced); `None` when a `bfrange` line runs backwards or past
/// 32 bits, where walking the range would overflow.
pub fn parse_tounicode_cmap(stream_data: &[u8]) -> (r: Option<BTreeMap<u16, char>>)
    ensures
        r is Some <==> cmap_ok(utf8_lossy(stream_data@)),
        r matches Some(m) ==> m@ == map_of(cmap_entries(utf8_lossy(stream_data@))),
{
    let s = decode_utf8_lossy(stream_data);
    if cmap_ranges_fit(s.as_str()) {
        Some(parse_tounicode_text(s.as_str()))
    } else {
        None
    }
}


// ---------------------------------------------------------------------------
// Decoding shown text
// ---------------------------------------------------------------------------

/// How a font's text strings are cut into character codes: one byte per
/// code (Type3 fonts), or two bytes, big-endian.
#[derive(PartialEq, Eq, Structural, Clone, Copy, Debug)]
pub enum CidEncoding {
    SingleByte,
    U16,
}

/// A font's ToUnicode map and code width.
pub struct FontInfo {
    pub cmap: BTreeMap<u16, char>,
    pub encoding: CidEncoding,
}

/// The character of a code: its mapping, or U+FFFD when it has none.
pub open spec fn lookup(m: Map<u16, char>, k: u16) -> char {
    if m.contains_key(k) {
        m[k]
    } else {
        '\u{FFFD}'
    }
}

/// Each byte as the character with that code (Latin-1).
pub open spec fn latin1(bytes: Seq<u8>) -> Seq<char> {
    bytes.map_values(|b: u8| b as char)
}

/// The big-endian code of the `i`-th pair of bytes.
pub open spec fn pair_code(bytes: Seq<u8>, i: int) -> u16 {
    (bytes[2 * i] as int * 256 + bytes[2 * i + 1] as int) as u16
}

/// Four or more codes in which every odd-numbered code equals the second
/// one: advance adjustments interleaved with the character codes.
pub open spec fn interleaved(bytes: Seq<u8>) -> bool {
    let n = bytes.len() / 2;
    n >= 4 && forall|j: int| 0 <= j < n && j % 2 == 1 ==> #[trigger] pair_code(bytes, j) == pair_code(bytes, 1)
}

/// The characters of the first `n` two-byte codes, the odd-numbered ones
/// left out when `skip_odd`.
pub open spec fn decoded_pairs(bytes: Seq<u8>, m: Map<u16, char>, skip_odd: bool, n: int) -> Seq<char>
    decreases n,
{
    if n <= 0 {
        Seq::empty()
    } else {
        decoded_pairs(bytes, m, skip_odd, n - 1) + if skip_odd && (n - 1) % 2 == 1 {
            Seq::empty()
        } else {
            seq![lookup(m, pair_code(bytes, n - 1))]
        }
    }
}

/// A text string decoded through a font's map: Latin-1 when the map is
/// empty, byte by byte for single-byte fonts, else pair by pair (a last odd
/// byte is dropped), without the interleaved adjustments.
pub open spec fn decoded(bytes: Seq<u8>, m: Map<u16, char>, single: bool) -> Seq<char> {
    if m.is_empty() {
        latin1(bytes)
    } else if single {
        bytes.map_values(|b: u8| lookup(m, b as u16))
    } else {
        decoded_pairs(bytes, m, interleaved(bytes), bytes.len() as int / 2)
    }
}

fn lookup_exec(m: &BTreeMap<u16, char>, k: u16) -> (c: char)
    ensures
        c == lookup(m@, k),
{
    match m.get(&k) {
        Some(c) => *c,
        None => '\u{FFFD}',
    }
}

fn pair_code_exec(bytes: &[u8], i: usize) -> (r: u16)
    requires
        2 * i + 1 < bytes@.len(),
    ensures
        r == pair_code(bytes@, i as int),
{
    let len = bytes.len();
    assert(2 * i + 1 < len);
    let hi = bytes[2 * i] as u16;
    let lo = bytes[2 * i + 1] as u16;
    hi * 256 + lo
}

/// Decodes a text string through a font's map.
pub fn decode_with_cmap(bytes: &[u8], info: &FontInfo) -> (r: String)
    ensures
        r@ == decoded(bytes@, info.cmap@, info.encoding == CidEncoding::SingleByte),
{
    let mut out: Vec<char> = Vec::new();
    if info.cmap.is_empty() {
        let mut i: usize = 0;
        while i < bytes.len()
            invariant
                i <= bytes.len(),
                out@ == latin1(bytes@.take(i as int)),
            decreases bytes.len() - i,
        {
            out.push(bytes[i] as char);
            i = i + 1;
            assert(out@ =~= latin1(bytes@.take(i as int)));
        }
        assert(bytes@.take(bytes@.len() as int) == bytes@);
        return string_of(&out);
    }
    if info.encoding == CidEncoding::SingleByte {
        let mut i: usize = 0;
        while i < bytes.len()
            invariant
                i <= bytes.len(),
                out@ == bytes@.take(i as int).map_values(|b: u8| lookup(info.cmap@, b as u16)),
            decreases bytes.len() - i,
        {
            out.push(lookup_exec(&info.cmap, bytes[i] as u16));
            i = i + 1;
            assert(out@ =~= bytes@.take(i as int).map_values(|b: u8| lookup(info.cmap@, b as u16)));
        }
        assert(bytes@.take(bytes@.len() as int) == bytes@);
        return string_of(&out);
    }
    let n = bytes.len() / 2;
    let mut il = n >= 4;
    if il {
        let second = pair_code_exec(bytes, 1);
        let mut j: usize = 1;
        while j < n
            invariant
                1 <= j,
                n == bytes@.len() / 2,
                second == pair_code(bytes@, 1),
                il ==> forall|k: int| 0 <= k < j && k % 2 == 1 ==> #[trigger] pair_code(bytes@, k) == second,
                !il ==> !interleaved(bytes@),
                n >= 4,
            decreases n - j,
        {
            if il && pair_code_exec(bytes, j) != second {
                assert(j % 2 == 1 ==> !interleaved(bytes@)) by {
                    if j % 2 == 1 {
                        assert(pair_code(bytes@, j as int) != pair_code(bytes@, 1));
                    }
                }
                if j % 2 == 1 {
                    il = false;
                }
            }
            j = j + 1;
        }
    }
    assert(il == interleaved(bytes@));
    let mut i: usize = 0;
    while i < n
        invariant
            i <= n,
            n == bytes@.len() / 2,
            il == interleaved(bytes@),
            out@ == decoded_pairs(bytes@, info.cmap@, il, i as int),
        decreases n - i,
    {
        if !(il && i % 2 == 1) {
            out.push(lookup_exec(&info.cmap, pair_code_exec(bytes, i)));
        }
        i = i + 1;
    }
    string_of(&out)
}


// ---------------------------------------------------------------------------
// Font tables
// ---------------------------------------------------------------------------

/// What text decoding reads of a font resource of a page: its resource
/// name, whether it is a Type3 font, and its ToUnicode stream.
pub struct PdfFont {
    pub name: String,
    pub is_type3: bool,
    pub to_unicode: Option<Vec<u8>>,
}

/// A named font with its decoding.
pub struct FontEntry {
    pub name: String,
    pub info: FontInfo,
}

/// A font table entry: name, map, single-byte codes.
pub type FontEntryView = (Seq<char>, Map<u16, char>, bool);

pub open spec fn entry_view(e: FontEntry) -> FontEntryView {
    (e.name@, e.info.cmap@, e.info.encoding == CidEncoding::SingleByte)
}

pub open spec fn entry_views(v: Seq<FontEntry>) -> Seq<FontEntryView> {
    v.map_values(|e: FontEntry| entry_view(e))
}

/// Whether the table has an entry with the name.
pub open spec fn has_font(t: Seq<FontEntryView>, name: Seq<char>) -> bool {
    exists|k: int| 0 <= k < t.len() && (#[trigger] t[k]).0 == name
}

/// The table after one more font resource: a font whose name is already
/// there is skipped; otherwise its ToUnicode map, when it has a non-empty
/// one, is added. `None` when that map has a range that cannot be walked.
pub open spec fn with_font(t: Seq<FontEntryView>, name: Seq<char>, is_type3: bool, to_unicode: Option<Seq<u8>>) -> Option<Seq<FontEntryView>> {
    if has_font(t, name) {
        Some(t)
    } else {
        match to_unicode {
            Some(bytes) => {
                let text = utf8_lossy(bytes);
                if !cmap_ok(text) {
                    None
                } else {
                    let m = map_of(cmap_entries(text));
                    if m.is_empty() { Some(t) } else { Some(t.push((name, m, is_type3))) }
                }
            },
            None => Some(t),
        }
    }
}

pub open spec fn font_view(f: PdfFont) -> (Seq<char>, bool, Option<Seq<u8>>) {
    (f.name@, f.is_type3, match f.to_unicode { Some(b) => Some(b@), None => None })
}

/// The font table of a document from its font resources, page by page:
/// the first font of each name that has a non-empty ToUnicode map.
pub open spec fn font_table(fonts: Seq<(Seq<char>, bool, Option<Seq<u8>>)>) -> Option<Seq<FontEntryView>>
    decreases fonts.len(),
{
    if fonts.len() == 0 {
        Some(Seq::empty())
    } else {
        match font_table(fonts.drop_last()) {
            Some(t) => with_font(t, fonts.last().0, fonts.last().1, fonts.last().2),
            None => None,
        }
    }
}

/// Once a prefix of the fonts has no table, the whole list has none.
proof fn lemma_font_table_none(fs: Seq<(Seq<char>, bool, Option<Seq<u8>>)>, j: int)
    requires
        0 <= j <= fs.len(),
        font_table(fs.take(j)) is None,
    ensures
        font_table(fs) is None,
    decreases fs.len(),
{
    if j < fs.len() {
        assert(fs.drop_last().take(j) == fs.take(j));
        lemma_font_table_none(fs.drop_last(), j);
    } else {
        assert(fs.take(j) == fs);
    }
}

fn find_font(table: &Vec<FontEntry>, name: &str) -> (r: Option<usize>)
    ensures
        match r {
            Some(k) => k < table@.len() && table@[k as int].name@ == name@ && forall|j: int| 0 <= j < k ==> table@[j].name@ != name@,
            None => !has_font(entry_views(table@), name@),
        },
{
    let mut k: usize = 0;
    while k < table.len()
        invariant
            k <= table.len(),
            forall|j: int| 0 <= j < k ==> table@[j].name@ != name@,
        decreases table.len() - k,
    {
        if eq_str(&chars_of(table[k].name.as_str()), name) {
            return Some(k);
        }
        k = k + 1;
    }
    assert forall|j: int| 0 <= j < entry_views(table@).len() implies (#[trigger] entry_views(table@)[j]).0 != name@ by {
        assert(entry_views(table@)[j] == entry_view(table@[j]));
    }
    None
}

/// Builds the font table of a document; `None` when a ToUnicode map has a
/// range that runs backwards or past 32 bits.
pub fn build_font_table(fonts: &[PdfFont]) -> (r: Option<Vec<FontEntry>>)
    ensures
        match r {
            Some(t) => font_table(fonts@.map_values(|f: PdfFont| font_view(f))) == Some(entry_views(t@)),
            None => font_table(fonts@.map_values(|f: PdfFont| font_view(f))) is None,
        },
{
    let ghost fv = fonts@.map_values(|f: PdfFont| font_view(f));
    let mut table: Vec<FontEntry> = Vec::new();
    let mut i: usize = 0;
    while i < fonts.len()
        invariant
            i <= fonts.len(),
            fv == fonts@.map_values(|f: PdfFont| font_view(f)),
            font_table(fv.take(i as int)) == Some(entry_views(table@)),
        decreases fonts.len() - i,
    {
        proof {
            assert(fv.take(i + 1).drop_last() == fv.take(i as int));
            assert(fv.take(i + 1).last() == font_view(fonts@[i as int]));
        }
        let f = &fonts[i];
        let ghost t = entry_views(table@);
        match find_font(&table, f.name.as_str()) {
            Some(k) => {
                assert(entry_views(table@)[k as int].0 == f.name@);
                assert(has_font(t, f.name@));
            },
            None => {
                match &f.to_unicode {
                    Some(bytes) => {
                        match parse_tounicode_cmap(bytes.as_slice()) {
                            Some(m) => {
                                if !m.is_empty() {
                                    let enc = if f.is_type3 { CidEncoding::SingleByte } else { CidEncoding::U16 };
                                    let name = string_of(&chars_of(f.name.as_str()));
                                    table.push(FontEntry { name, info: FontInfo { cmap: m, encoding: enc } });
                                    assert(entry_views(table@) =~= t.push((f.name@, m@, f.is_type3)));
                                }
                            },
                            None => {
                                proof { lemma_font_table_none(fv, i + 1); }
                                return None;
                            },
                        }
                    },
                    None => {},
                }
            },
        }
        i = i + 1;
    }
    assert(fv.take(fonts@.len() as int) == fv);
    Some(table)
}

/// The decoding of a font in the table, if it is there.
pub open spec fn table_font(t: Seq<FontEntryView>, name: Seq<char>) -> Option<(Map<u16, char>, bool)>
    decreases t.len(),
{
    if t.len() == 0 {
        None
    } else if t[0].0 == name {
        Some((t[0].1, t[0].2))
    } else {
        table_font(t.drop_first(), name)
    }
}

/// The text of a text-showing operation: its strings decoded through the
/// current font's map (Latin-1 when the font is not in the table), one
/// after the other; `None` when that text is only white space.
pub open spec fn shown_text(t: Seq<FontEntryView>, font: Seq<char>, strings: Seq<Seq<u8>>) -> Option<Seq<char>> {
    let text = shown_strings(t, font, strings);
    if trim(text).len() == 0 { None } else { Some(text) }
}

/// The strings of a text-showing operation decoded, one after the other.
pub open spec fn shown_strings(t: Seq<FontEntryView>, font: Seq<char>, strings: Seq<Seq<u8>>) -> Seq<char>
    decreases strings.len(),
{
    if strings.len() == 0 {
        Seq::empty()
    } else {
        shown_strings(t, font, strings.drop_last()) + match table_font(t, font) {
            Some((m, single)) => decoded(strings.last(), m, single),
            None => latin1(strings.last()),
        }
    }
}

proof fn lemma_table_font(t: Seq<FontEntryView>, name: Seq<char>, k: int)
    requires
        0 <= k <= t.len(),
        forall|j: int| 0 <= j < k ==> (#[trigger] t[j]).0 != name,
        k < t.len() ==> t[k].0 == name,
    ensures
        k < t.len() ==> table_font(t, name) == Some((t[k].1, t[k].2)),
        k == t.len() ==> table_font(t, name) is None,
    decreases t.len(),
{
    if t.len() > 0 && k > 0 {
        assert forall|j: int| 0 <= j < k - 1 implies (#[trigger] t.drop_first()[j]).0 != name by {
            assert(t.drop_first()[j] == t[j + 1]);
        }
        lemma_table_font(t.drop_first(), name, k - 1);
    }
}

/// Decodes the strings of a text-showing operation (`Tj` has one, `TJ` an
/// array of them) in the current font.
pub fn decode_shown_text(table: &Vec<FontEntry>, font: &str, strings: &[Vec<u8>]) -> (r: Option<String>)
    ensures
        match r {
            Some(x) => shown_text(entry_views(table@), font@, strings@.map_values(|b: Vec<u8>| b@)) == Some(x@),
            None => shown_text(entry_views(table@), font@, strings@.map_values(|b: Vec<u8>| b@)) is None,
        },
{
    let ghost t = entry_views(table@);
    let ghost sv = strings@.map_values(|b: Vec<u8>| b@);
    let found = find_font(table, font);
    proof {
        match found {
            Some(k) => {
                assert forall|j: int| 0 <= j < k implies (#[trigger] t[j]).0 != font@ by {
                    assert(t[j] == entry_view(table@[j]));
                }
                lemma_table_font(t, font@, k as int);
            },
            None => {
                lemma_table_font(t, font@, t.len() as int);
            },
        }
    }
    let mut out: Vec<char> = Vec::new();
    let mut i: usize = 0;
    while i < strings.len()
        invariant
            i <= strings.len(),
            sv == strings@.map_values(|b: Vec<u8>| b@),
            t == entry_views(table@),
            match found {
                Some(k) => k < table@.len() && table_font(t, font@) == Some((table@[k as int].info.cmap@, table@[k as int].info.encoding == CidEncoding::SingleByte)),
                None => table_font(t, font@) is None,
            },
            out@ == shown_strings(t, font@, sv.take(i as int)),
        decreases strings.len() - i,
    {
        proof {
            assert(sv.take(i + 1).drop_last() == sv.take(i as int));
            assert(sv.take(i + 1).last() == strings@[i as int]@);
        }
        let piece = match found {
            Some(k) => decode_with_cmap(strings[i].as_slice(), &table[k].info),
            None => {
                let mut l: Vec<char> = Vec::new();
                let bs = &strings[i];
                let mut j: usize = 0;
                while j < bs.len()
                    invariant
                        j <= bs.len(),
                        l@ == latin1(bs@.take(j as int)),
                    decreases bs.len() - j,
                {
                    l.push(bs[j] as char);
                    j = j + 1;
                    assert(l@ =~= latin1(bs@.take(j as int)));
                }
                assert(bs@.take(bs@.len() as int) == bs@);
                string_of(&l)
            },
        };
        push_all(&mut out, &chars_of(piece.as_str()));
        i = i + 1;
    }
    assert(sv.take(strings@.len() as int) == sv);
    let tr = trimmed_range(&out, 0, out.len());
    assert(out@.subrange(0, out@.len() as int) == out@);
    if tr.len() == 0 {
        None
    } else {
        Some(string_of(&out))
    }
}


// ---------------------------------------------------------------------------
// Page count
// ---------------------------------------------------------------------------

/// The end of a `/Type\s*/Page[^s]` page marker at `p`.
pub open spec fn page_mark_at(s: Seq<char>, p: int) -> Option<int> {
    if occurs_at(s, p, "/Type"@) {
        let a = ws_end(s, p + 5);
        if occurs_at(s, a, "/Page"@) && a + 5 < s.len() && s[a + 5] != 's' {
            Some(a + 6)
        } else {
            None
        }
    } else {
        None
    }
}

/// The number of page markers from `i` on (a page-tree node, `/Pages`, is
/// no page).
pub open spec fn page_marks_from(s: Seq<char>, i: int) -> nat
    decreases s.len() + 1 - i,
{
    match find_from(s, "/Type"@, i) {
        Some(p) => {
            proof {
                reveal_strlit("/Type");
                lemma_find_from(s, "/Type"@, i);
                lemma_ws_end(s, p + 5);
            }
            if i >= 0 {
                match page_mark_at(s, p) {
                    Some(e) => 1 + page_marks_from(s, e),
                    None => page_marks_from(s, p + 1),
                }
            } else {
                0
            }
        },
        None => 0,
    }
}

/// Counts the pages of a PDF by its page markers, reading the bytes as
/// UTF-8 (invalid sequences replaced).
pub fn count_pdf_pages(pdf: &[u8]) -> (r: usize)
    ensures
        r == page_marks_from(utf8_lossy(pdf@), 0),
{
    let text = decode_utf8_lossy(pdf);
    let v = chars_of(text.as_str());
    let ty = chars_of("/Type");
    let pg = chars_of("/Page");
    proof {
        reveal_strlit("/Type");
        reveal_strlit("/Page");
    }
    let n = v.len();
    let mut count: usize = 0;
    let mut i: usize = 0;
    while i <= n
        invariant
            n == v@.len(),
            v@ == utf8_lossy(pdf@),
            ty@ == "/Type"@,
            ty@.len() == 5,
            pg@ == "/Page"@,
            pg@.len() == 5,
            count <= i,
            count + page_marks_from(v@, i as int) == page_marks_from(v@, 0),
        ensures
            count == page_marks_from(v@, 0),
        decreases n + 1 - i,
    {
        let p = match find_from_exec(&v, &ty, i) {
            Some(p) => p,
            None => break,
        };
        proof { lemma_find_from(v@, ty@, i as int); }
        let a = ws_end_exec(&v, p + 5);
        proof { lemma_ws_end(v@, p + 5); }
        if occurs_at_exec(&v, a, &pg) && a + 5 < n && v[a + 5] != 's' {
            count = count + 1;
            i = a + 6;
        } else {
            i = p + 1;
        }
    }
    count
}

} // verus!
