//! Citation markers in the assistant's replies.
//!
//! A marker reads `[Source: "Name"]`, optionally followed by `, p.12` (or a
//! range `, p.45-49`, whose start is kept) and by `, quote: "..."` (or
//! `quotes:`), and ends at the next `]`. The recogniser below follows the
//! leftmost-first reading of that grammar: whitespace is Unicode
//! `White_Space`, page digits are Unicode decimal digits, and a quote runs
//! to the first `"` that still has a `]` after it.
use vstd::prelude::*;
use crate::regex_match::{regex_is_match, regex_matches};
use crate::text::{chars_of, extend_chars, extend_str, is_space, is_space_char, occurs_at, slice_chars, string_of, trim, trim_chars};

verus! {

/// A citation found in an assistant reply.
#[derive(Debug, Clone, PartialEq)]
pub struct Citation {
    pub source_name: String,
    pub page: Option<i64>,
    pub text_excerpt: String,
}

/// The view of a citation: source name, page, excerpt.
pub open spec fn citation_view(c: Citation) -> (Seq<char>, Option<i64>, Seq<char>) {
    (c.source_name@, c.page, c.text_excerpt@)
}

/// Start of every marker.
pub const MARKER: &'static str = "[Source:";

/// The page key.
pub const PAGE_KEY: &'static str = "p.";

/// The quote key (an `s` may follow it).
pub const QUOTE_KEY: &'static str = "quote";

/// The character class of page digits.
pub const DIGIT_CLASS: &'static str = "\\d";

/// Most characters of the fallback excerpt.
pub const FALLBACK_EXCERPT_LEN: usize = 80;

// ── Scanning primitives ────────────────────────────────────────────────────

/// `c` is a Unicode decimal digit, as the `regex` crate's `\d` decides.
pub open spec fn is_page_digit(c: char) -> bool {
    regex_matches(DIGIT_CLASS@, seq![c])
}

/// First index `>= i` that is not whitespace (or the length).
pub open spec fn skip_ws(s: Seq<char>, i: int) -> int
    decreases s.len() - i,
{
    if 0 <= i < s.len() && is_space_char(s[i]) {
        skip_ws(s, i + 1)
    } else {
        i
    }
}

/// First index `>= i` holding a double quote (or the length).
pub open spec fn name_end(s: Seq<char>, i: int) -> int
    decreases s.len() - i,
{
    if 0 <= i < s.len() && s[i] != '"' {
        name_end(s, i + 1)
    } else {
        i
    }
}

/// First index `>= i` that is not a page digit (or the length).
pub open spec fn digit_end(s: Seq<char>, i: int) -> int
    decreases s.len() - i,
{
    if 0 <= i < s.len() && is_page_digit(s[i]) {
        digit_end(s, i + 1)
    } else {
        i
    }
}

/// First index `>= i` holding `]` (or the length).
pub open spec fn find_bracket(s: Seq<char>, i: int) -> int
    decreases s.len() - i,
{
    if 0 <= i < s.len() && s[i] != ']' {
        find_bracket(s, i + 1)
    } else {
        i
    }
}

/// Some `]` occurs at an index `>= i`.
pub open spec fn bracket_after(s: Seq<char>, i: int) -> bool {
    exists|k: int| i <= k < s.len() && s[k] == ']'
}

/// First index `>= i` holding a `"` that has a `]` somewhere after it (or
/// the length): where a lazily matched quote ends.
pub open spec fn closing_quote(s: Seq<char>, i: int) -> int
    decreases s.len() - i,
{
    if 0 <= i < s.len() {
        if s[i] == '"' && bracket_after(s, i + 1) {
            i
        } else {
            closing_quote(s, i + 1)
        }
    } else {
        i
    }
}

// ── The marker grammar ─────────────────────────────────────────────────────

/// `[Source:`, whitespace, and a quoted non-empty name at `p`: the bounds of
/// the name.
pub open spec fn marker_head(s: Seq<char>, p: int) -> Option<(int, int)> {
    if occurs_at(s, MARKER@, p) {
        let q = skip_ws(s, p + MARKER@.len());
        if q < s.len() && s[q] == '"' {
            let n = name_end(s, q + 1);
            if q + 1 < n < s.len() {
                Some((q + 1, n))
            } else {
                None
            }
        } else {
            None
        }
    } else {
        None
    }
}

/// `, p.` and a run of digits at `e`: the bounds of the digits.
pub open spec fn page_digits(s: Seq<char>, e: int) -> Option<(int, int)> {
    if 0 <= e < s.len() && s[e] == ',' {
        let a = skip_ws(s, e + 1);
        if occurs_at(s, PAGE_KEY@, a) {
            let b = skip_ws(s, a + PAGE_KEY@.len());
            let d = digit_end(s, b);
            if d > b {
                Some((b, d))
            } else {
                None
            }
        } else {
            None
        }
    } else {
        None
    }
}

/// Where the page part that starts at `e` ends (`e` itself without one),
/// a `-` and the digits of a range end included.
pub open spec fn page_end(s: Seq<char>, e: int) -> int {
    match page_digits(s, e) {
        Some((b, d)) => if d < s.len() && s[d] == '-' && digit_end(s, d + 1) > d + 1 {
            digit_end(s, d + 1)
        } else {
            d
        },
        None => e,
    }
}

/// `, quote:` (or `quotes:`), whitespace and `"` at `pe`: where the quoted
/// text starts.
pub open spec fn quote_open(s: Seq<char>, pe: int) -> Option<int> {
    if 0 <= pe < s.len() && s[pe] == ',' {
        let a = skip_ws(s, pe + 1);
        if occurs_at(s, QUOTE_KEY@, a) {
            let c = a + QUOTE_KEY@.len();
            let k = if c < s.len() && s[c] == 's' {
                c + 1
            } else {
                c
            };
            if k < s.len() && s[k] == ':' {
                let a3 = skip_ws(s, k + 1);
                if a3 < s.len() && s[a3] == '"' {
                    Some(a3 + 1)
                } else {
                    None
                }
            } else {
                None
            }
        } else {
            None
        }
    } else {
        None
    }
}

/// The bounds of the quoted text, when the quote part is present.
pub open spec fn quote_span(s: Seq<char>, pe: int) -> Option<(int, int)> {
    match quote_open(s, pe) {
        Some(qs) => {
            let q = closing_quote(s, qs);
            if q < s.len() {
                Some((qs, q))
            } else {
                None
            }
        },
        None => None,
    }
}

/// A marker that starts at `p`: name bounds, page digit bounds, quote
/// bounds, and the index just after its closing `]`.
pub open spec fn marker_at(s: Seq<char>, p: int) -> Option<(int, int, Option<(int, int)>, Option<(int, int)>, int)> {
    match marker_head(s, p) {
        Some((ns, ne)) => {
            let e = ne + 1;
            let pg = page_digits(s, e);
            let pe = page_end(s, e);
            let qt = quote_span(s, pe);
            let r = match qt {
                Some((_, q)) => q + 1,
                None => pe,
            };
            if bracket_after(s, r) {
                Some((ns, ne, pg, qt, find_bracket(s, r) + 1))
            } else {
                None
            }
        },
        None => None,
    }
}

// ── From a marker to a citation ────────────────────────────────────────────

pub open spec fn is_ascii_digit(c: char) -> bool {
    '0' <= c && c <= '9'
}

/// The number that ASCII digits `ds` spell.
pub open spec fn ascii_value(ds: Seq<char>) -> nat
    decreases ds.len(),
{
    if ds.len() == 0 {
        0
    } else {
        ascii_value(ds.drop_last()) * 10 + ((ds.last() as u32) - 48) as nat
    }
}

/// The page that `str::parse::<i64>` reads from `ds`: none unless every
/// digit is ASCII and the value fits.
pub open spec fn parse_page(ds: Seq<char>) -> Option<i64> {
    if ds.len() > 0 && (forall|k: int| 0 <= k < ds.len() ==> is_ascii_digit(#[trigger] ds[k]))
        && ascii_value(ds) <= i64::MAX {
        Some(ascii_value(ds) as i64)
    } else {
        None
    }
}

/// The fallback excerpt: up to `FALLBACK_EXCERPT_LEN` characters after
/// the first `n` characters (the marker's end), trimmed.
pub open spec fn fallback_excerpt(s: Seq<char>, n: int) -> Seq<char> {
    if n >= s.len() {
        Seq::empty()
    } else {
        let t = s.skip(n);
        if t.len() <= FALLBACK_EXCERPT_LEN {
            trim(t)
        } else {
            trim(t.take(FALLBACK_EXCERPT_LEN as int))
        }
    }
}

/// The citation a marker stands for.
pub open spec fn citation_of(s: Seq<char>, m: (int, int, Option<(int, int)>, Option<(int, int)>, int)) -> (Seq<char>, Option<i64>, Seq<char>) {
    (
        s.subrange(m.0, m.1),
        match m.2 {
            Some((b, d)) => parse_page(s.subrange(b, d)),
            None => None,
        },
        match m.3 {
            Some((qs, q)) => trim(s.subrange(qs, q)),
            None => fallback_excerpt(s, m.4),
        },
    )
}

/// The citations of `s` from index `i` on: leftmost markers, each search
/// resuming after the previous marker.
pub open spec fn citations_from(s: Seq<char>, i: int) -> Seq<(Seq<char>, Option<i64>, Seq<char>)>
    decreases s.len() - i,
{
    if 0 <= i < s.len() {
        match marker_at(s, i) {
            Some(m) => if i < m.4 <= s.len() {
                seq![citation_of(s, m)] + citations_from(s, m.4)
            } else {
                Seq::empty()
            },
            None => citations_from(s, i + 1),
        }
    } else {
        Seq::empty()
    }
}

// ── Executable scanning ────────────────────────────────────────────────────

fn occurs_at_exec(s: &Vec<char>, t: &Vec<char>, i: usize) -> (r: bool)
    ensures
        r == occurs_at(s@, t@, i as int),
{
    if i > s.len() || t.len() > s.len() - i {
        return false;
    }
    let mut k: usize = 0;
    while k < t.len()
        invariant
            s@.len() <= usize::MAX,
            i + t@.len() <= s@.len(),
            k <= t@.len(),
            forall|j: int| 0 <= j < k ==> s@[i + j] == t@[j],
        decreases t@.len() - k,
    {
        if s[i + k] != t[k] {
            assert(s@.subrange(i as int, i + t@.len())[k as int] != t@[k as int]);
            return false;
        }
        k += 1;
    }
    assert(s@.subrange(i as int, i + t@.len()) =~= t@);
    true
}

fn skip_ws_exec(s: &Vec<char>, i: usize) -> (r: usize)
    requires
        i <= s@.len(),
    ensures
        r == skip_ws(s@, i as int),
        i <= r <= s@.len(),
{
    let mut j = i;
    while j < s.len() && is_space(s[j])
        invariant
            i <= j <= s@.len(),
            skip_ws(s@, i as int) == skip_ws(s@, j as int),
        decreases s@.len() - j,
    {
        j += 1;
    }
    j
}

fn name_end_exec(s: &Vec<char>, i: usize) -> (r: usize)
    requires
        i <= s@.len(),
    ensures
        r == name_end(s@, i as int),
        i <= r <= s@.len(),
{
    let mut j = i;
    while j < s.len() && s[j] != '"'
        invariant
            i <= j <= s@.len(),
            name_end(s@, i as int) == name_end(s@, j as int),
        decreases s@.len() - j,
    {
        j += 1;
    }
    j
}

fn find_bracket_exec(s: &Vec<char>, i: usize) -> (r: usize)
    requires
        i <= s@.len(),
    ensures
        r == find_bracket(s@, i as int),
        i <= r <= s@.len(),
        r < s@.len() ==> s@[r as int] == ']',
        forall|k: int| i <= k < r ==> s@[k] != ']',
{
    let mut j = i;
    while j < s.len() && s[j] != ']'
        invariant
            i <= j <= s@.len(),
            find_bracket(s@, i as int) == find_bracket(s@, j as int),
            forall|k: int| i <= k < j ==> s@[k] != ']',
        decreases s@.len() - j,
    {
        j += 1;
    }
    j
}

/// `regex`'s `\d` on one character.
fn is_page_digit_exec(c: char) -> (r: bool)
    ensures
        r == is_page_digit(c),
{
    let v = vec![c];
    assert(v@ =~= seq![c]);
    let cs = string_of(&v);
    regex_is_match(DIGIT_CLASS, cs.as_str())
}

fn digit_end_exec(s: &Vec<char>, i: usize) -> (r: usize)
    requires
        i <= s@.len(),
    ensures
        r == digit_end(s@, i as int),
        i <= r <= s@.len(),
{
    let mut j = i;
    while j < s.len() && is_page_digit_exec(s[j])
        invariant
            i <= j <= s@.len(),
            digit_end(s@, i as int) == digit_end(s@, j as int),
        decreases s@.len() - j,
    {
        j += 1;
    }
    j
}

/// The index of the last `]` of `s`, if any.
fn last_bracket(s: &Vec<char>) -> (r: Option<usize>)
    ensures
        match r {
            Some(l) => l < s@.len() && s@[l as int] == ']' && forall|k: int| l < k < s@.len() ==> s@[k] != ']',
            None => forall|k: int| 0 <= k < s@.len() ==> s@[k] != ']',
        },
{
    let mut j = s.len();
    while j > 0
        invariant
            j <= s@.len(),
            forall|k: int| j <= k < s@.len() ==> s@[k] != ']',
        decreases j,
    {
        if s[j - 1] == ']' {
            return Some(j - 1);
        }
        j -= 1;
    }
    None
}

/// `bracket_after` through the last `]`.
fn bracket_after_exec(s: &Vec<char>, last: Option<usize>, i: usize) -> (r: bool)
    requires
        match last {
            Some(l) => l < s@.len() && s@[l as int] == ']' && forall|k: int| l < k < s@.len() ==> s@[k] != ']',
            None => forall|k: int| 0 <= k < s@.len() ==> s@[k] != ']',
        },
    ensures
        r == bracket_after(s@, i as int),
{
    match last {
        Some(l) => {
            if i <= l {
                assert(s@[l as int] == ']');
                true
            } else {
                false
            }
        },
        None => false,
    }
}

fn closing_quote_exec(s: &Vec<char>, last: Option<usize>, i: usize) -> (r: usize)
    requires
        i <= s@.len(),
        match last {
            Some(l) => l < s@.len() && s@[l as int] == ']' && forall|k: int| l < k < s@.len() ==> s@[k] != ']',
            None => forall|k: int| 0 <= k < s@.len() ==> s@[k] != ']',
        },
    ensures
        r == closing_quote(s@, i as int),
        i <= r <= s@.len(),
        r < s@.len() ==> s@[r as int] == '"' && bracket_after(s@, r + 1),
{
    let mut j = i;
    while j < s.len() && !(s[j] == '"' && bracket_after_exec(s, last, j + 1))
        invariant
            i <= j <= s@.len(),
            closing_quote(s@, i as int) == closing_quote(s@, j as int),
            match last {
                Some(l) => l < s@.len() && s@[l as int] == ']' && forall|k: int| l < k < s@.len() ==> s@[k] != ']',
                None => forall|k: int| 0 <= k < s@.len() ==> s@[k] != ']',
            },
        decreases s@.len() - j,
    {
        j += 1;
    }
    j
}

/// The literals of the grammar as characters.
struct Keys {
    marker: Vec<char>,
    page: Vec<char>,
    quote: Vec<char>,
}

fn keys() -> (k: Keys)
    ensures
        k.marker@ == MARKER@,
        k.page@ == PAGE_KEY@,
        k.quote@ == QUOTE_KEY@,
{
    Keys { marker: chars_of(MARKER), page: chars_of(PAGE_KEY), quote: chars_of(QUOTE_KEY) }
}

fn marker_head_exec(s: &Vec<char>, k: &Keys, p: usize) -> (r: Option<(usize, usize)>)
    requires
        p < s@.len(),
        k.marker@ == MARKER@,
    ensures
        match r {
            Some((a, b)) => marker_head(s@, p as int) == Some((a as int, b as int)) && p < a < b < s@.len(),
            None => marker_head(s@, p as int) is None,
        },
{
    let _n = s.len();
    if !occurs_at_exec(s, &k.marker, p) {
        return None;
    }
    let q = skip_ws_exec(s, p + k.marker.len());
    if q < s.len() && s[q] == '"' {
        let n = name_end_exec(s, q + 1);
        if q + 1 < n && n < s.len() {
            Some((q + 1, n))
        } else {
            None
        }
    } else {
        None
    }
}

fn page_digits_exec(s: &Vec<char>, k: &Keys, e: usize) -> (r: Option<(usize, usize)>)
    requires
        e <= s@.len(),
        k.page@ == PAGE_KEY@,
    ensures
        match r {
            Some((b, d)) => page_digits(s@, e as int) == Some((b as int, d as int)) && e < b < d <= s@.len(),
            None => page_digits(s@, e as int) is None,
        },
{
    if e < s.len() && s[e] == ',' {
        let a = skip_ws_exec(s, e + 1);
        if occurs_at_exec(s, &k.page, a) {
            let b = skip_ws_exec(s, a + k.page.len());
            let d = digit_end_exec(s, b);
            if d > b {
                Some((b, d))
            } else {
                None
            }
        } else {
            None
        }
    } else {
        None
    }
}

fn page_end_exec(s: &Vec<char>, e: usize, pg: Option<(usize, usize)>) -> (r: usize)
    requires
        e <= s@.len(),
        match pg {
            Some((b, d)) => page_digits(s@, e as int) == Some((b as int, d as int)) && e < b < d <= s@.len(),
            None => page_digits(s@, e as int) is None,
        },
    ensures
        r == page_end(s@, e as int),
        e <= r <= s@.len(),
{
    match pg {
        Some((_b, d)) => {
            if d < s.len() && s[d] == '-' {
                let d2 = digit_end_exec(s, d + 1);
                if d2 > d + 1 {
                    d2
                } else {
                    d
                }
            } else {
                d
            }
        },
        None => e,
    }
}

fn quote_open_exec(s: &Vec<char>, k: &Keys, pe: usize) -> (r: Option<usize>)
    requires
        pe <= s@.len(),
        k.quote@ == QUOTE_KEY@,
    ensures
        match r {
            Some(qs) => quote_open(s@, pe as int) == Some(qs as int) && pe < qs <= s@.len(),
            None => quote_open(s@, pe as int) is None,
        },
{
    if pe < s.len() && s[pe] == ',' {
        let a = skip_ws_exec(s, pe + 1);
        if occurs_at_exec(s, &k.quote, a) {
            let c = a + k.quote.len();
            let kk = if c < s.len() && s[c] == 's' {
                c + 1
            } else {
                c
            };
            if kk < s.len() && s[kk] == ':' {
                let a3 = skip_ws_exec(s, kk + 1);
                if a3 < s.len() && s[a3] == '"' {
                    Some(a3 + 1)
                } else {
                    None
                }
            } else {
                None
            }
        } else {
            None
        }
    } else {
        None
    }
}

/// A marker at `p`, when one starts there.
fn marker_at_exec(s: &Vec<char>, k: &Keys, last: Option<usize>, p: usize) -> (r: Option<
    (usize, usize, Option<(usize, usize)>, Option<(usize, usize)>, usize),
>)
    requires
        p < s@.len(),
        k.marker@ == MARKER@,
        k.page@ == PAGE_KEY@,
        k.quote@ == QUOTE_KEY@,
        match last {
            Some(l) => l < s@.len() && s@[l as int] == ']' && forall|j: int| l < j < s@.len() ==> s@[j] != ']',
            None => forall|j: int| 0 <= j < s@.len() ==> s@[j] != ']',
        },
    ensures
        match r {
            Some(m) => {
                &&& marker_at(s@, p as int) == Some(
                    (
                        m.0 as int,
                        m.1 as int,
                        match m.2 {
                            Some((b, d)) => Some((b as int, d as int)),
                            None => None,
                        },
                        match m.3 {
                            Some((a, b)) => Some((a as int, b as int)),
                            None => None,
                        },
                        m.4 as int,
                    ),
                )
                &&& m.0 <= m.1 <= s@.len()
                &&& p < m.4 <= s@.len()
                &&& (m.2 matches Some((b, d)) ==> b <= d <= s@.len())
                &&& (m.3 matches Some((a, b)) ==> a <= b <= s@.len())
            },
            None => marker_at(s@, p as int) is None,
        },
{
    let _n = s.len();
    let head = marker_head_exec(s, k, p);
    match head {
        None => None,
        Some((ns, ne)) => {
            let e = ne + 1;
            let pg = page_digits_exec(s, k, e);
            let pe = page_end_exec(s, e, pg);
            let qo = quote_open_exec(s, k, pe);
            let qt: Option<(usize, usize)> = match qo {
                Some(qs) => {
                    let q = closing_quote_exec(s, last, qs);
                    if q < s.len() {
                        Some((qs, q))
                    } else {
                        None
                    }
                },
                None => None,
            };
            let r = match qt {
                Some((_, q)) => q + 1,
                None => pe,
            };
            if bracket_after_exec(s, last, r) {
                let b = find_bracket_exec(s, r);
                assert(b < s@.len()) by {
                    let w = choose|w: int| r <= w < s@.len() && s@[w] == ']';
                    if b >= s@.len() {
                        assert(s@[w] != ']');
                    }
                }
                Some((ns, ne, pg, qt, b + 1))
            } else {
                None
            }
        },
    }
}

// ── Page numbers and excerpts ──────────────────────────────────────────────

proof fn lemma_ascii_value_mono(ds: Seq<char>, i: int, j: int)
    requires
        0 <= i <= j <= ds.len(),
    ensures
        ascii_value(ds.take(i)) <= ascii_value(ds.take(j)),
    decreases j - i,
{
    if i < j {
        lemma_ascii_value_mono(ds, i, j - 1);
        assert(ds.take(j).drop_last() =~= ds.take(j - 1));
    }
}

/// `str::parse::<i64>` on the digits `s[b..d]`.
fn parse_page_exec(s: &Vec<char>, b: usize, d: usize) -> (r: Option<i64>)
    requires
        b < d <= s@.len(),
    ensures
        r == parse_page(s@.subrange(b as int, d as int)),
{
    let ghost ds = s@.subrange(b as int, d as int);
    let mut v: i128 = 0;
    let mut i = b;
    while i < d
        invariant
            b <= i <= d <= s@.len(),
            ds == s@.subrange(b as int, d as int),
            forall|k: int| 0 <= k < i - b ==> is_ascii_digit(#[trigger] ds[k]),
            v == ascii_value(ds.take(i - b)),
            v <= i64::MAX,
        decreases d - i,
    {
        let c = s[i];
        if !('0' <= c && c <= '9') {
            assert(!is_ascii_digit(ds[i - b]));
            return None;
        }
        let dv = (c as u32 - 48) as i128;
        assert(ds.take(i - b + 1).drop_last() =~= ds.take(i - b));
        assert(ds.take(i - b + 1).last() == c);
        let nv = v * 10 + dv;
        if nv > i64::MAX as i128 {
            proof {
                lemma_ascii_value_mono(ds, i - b + 1, ds.len() as int);
                assert(ds.take(ds.len() as int) =~= ds);
            }
            return None;
        }
        v = nv;
        i += 1;
    }
    assert(ds.take(i - b) =~= ds);
    Some(v as i64)
}

/// The fallback excerpt after the marker that ends at character `end`.
fn fallback_excerpt_exec(s: &Vec<char>, end: usize) -> (r: Vec<char>)
    requires
        end <= s@.len(),
    ensures
        r@ == fallback_excerpt(s@, end as int),
{
    if end >= s.len() {
        return Vec::new();
    }
    let rest = s.len() - end;
    let take = if rest <= FALLBACK_EXCERPT_LEN {
        rest
    } else {
        FALLBACK_EXCERPT_LEN
    };
    let t = slice_chars(s, end, end + take);
    proof {
        if rest <= FALLBACK_EXCERPT_LEN {
            assert(t@ =~= s@.skip(end as int));
        } else {
            assert(t@ =~= s@.skip(end as int).take(FALLBACK_EXCERPT_LEN as int));
        }
    }
    trim_chars(&t)
}

fn citation_at(s: &Vec<char>, m: (usize, usize, Option<(usize, usize)>, Option<(usize, usize)>, usize)) -> (r: Citation)
    requires
        m.0 <= m.1 <= s@.len(),
        m.4 <= s@.len(),
        m.2 matches Some((b, d)) ==> b < d <= s@.len(),
        m.3 matches Some((a, b)) ==> a <= b <= s@.len(),
    ensures
        citation_view(r) == citation_of(
            s@,
            (
                m.0 as int,
                m.1 as int,
                match m.2 {
                    Some((b, d)) => Some((b as int, d as int)),
                    None => None,
                },
                match m.3 {
                    Some((a, b)) => Some((a as int, b as int)),
                    None => None,
                },
                m.4 as int,
            ),
        ),
{
    let name = slice_chars(s, m.0, m.1);
    let page = match m.2 {
        Some((b, d)) => parse_page_exec(s, b, d),
        None => None,
    };
    let excerpt = match m.3 {
        Some((a, b)) => {
            let q = slice_chars(s, a, b);
            trim_chars(&q)
        },
        None => fallback_excerpt_exec(s, m.4),
    };
    Citation { source_name: string_of(&name), page, text_excerpt: string_of(&excerpt) }
}

/// Extracts every citation marker of an assistant reply, in order. A quote
/// is kept trimmed as the excerpt; without one, up to eighty characters
/// after the marker serve as the excerpt.
pub fn parse_citations(response: &str) -> (r: Vec<Citation>)
    ensures
        r@.map_values(|c: Citation| citation_view(c)) == citations_from(response@, 0),
{
    let s = chars_of(response);
    let k = keys();
    let last = last_bracket(&s);
    let mut out: Vec<Citation> = Vec::new();
    let mut i: usize = 0;
    while i < s.len()
        invariant
            i <= s@.len(),
            s@ == response@,
            k.marker@ == MARKER@,
            k.page@ == PAGE_KEY@,
            k.quote@ == QUOTE_KEY@,
            match last {
                Some(l) => l < s@.len() && s@[l as int] == ']' && forall|j: int| l < j < s@.len() ==> s@[j] != ']',
                None => forall|j: int| 0 <= j < s@.len() ==> s@[j] != ']',
            },
            citations_from(s@, 0) == out@.map_values(|c: Citation| citation_view(c)) + citations_from(s@, i as int),
        decreases s@.len() - i,
    {
        match marker_at_exec(&s, &k, last, i) {
            Some(m) => {
                let c = citation_at(&s, m);
                let ghost prev = out@;
                out.push(c);
                proof {
                    assert(out@.map_values(|c: Citation| citation_view(c)) =~= prev.map_values(
                        |c: Citation| citation_view(c),
                    ) + seq![citation_view(c)]);
                }
                i = m.4;
            },
            None => {
                i += 1;
            },
        }
    }
    assert(citations_from(s@, i as int) =~= Seq::empty());
    out
}

// ── Storing citations ──────────────────────────────────────────────────────

/// `s` with every single quote doubled, as a SurrealQL string needs.
pub open spec fn double_single_quotes(s: Seq<char>) -> Seq<char>
    decreases s.len(),
{
    if s.len() == 0 {
        Seq::empty()
    } else {
        double_single_quotes(s.drop_last()) + if s.last() == '\'' {
            seq!['\'', '\'']
        } else {
            seq![s.last()]
        }
    }
}

fn push_doubled(out: &mut Vec<char>, s: &str)
    ensures
        final(out)@ == old(out)@ + double_single_quotes(s@),
{
    let sc = chars_of(s);
    let ghost a = out@;
    let mut i: usize = 0;
    while i < sc.len()
        invariant
            i <= sc@.len(),
            sc@ == s@,
            out@ == a + double_single_quotes(sc@.take(i as int)),
        decreases sc@.len() - i,
    {
        if sc[i] == '\'' {
            out.push('\'');
            out.push('\'');
        } else {
            out.push(sc[i]);
        }
        proof {
            assert(sc@.take(i + 1).drop_last() =~= sc@.take(i as int));
        }
        i += 1;
        assert(out@ =~= a + double_single_quotes(sc@.take(i as int)));
    }
    assert(sc@.take(i as int) =~= s@);
}

/// A citation as a SurrealQL object literal; the page field is left out
/// when there is no page.
pub open spec fn citation_object(c: Citation) -> Seq<char> {
    "{ source_name: '"@ + double_single_quotes(c.source_name@) + match c.page {
        Some(p) => "', page: "@ + crate::decimal::int_decimal(p as int) + ", text_excerpt: '"@,
        None => "', text_excerpt: '"@,
    } + double_single_quotes(c.text_excerpt@) + "' }"@
}

/// The citations as SurrealQL object literals joined by `", "`.
pub open spec fn citations_surql_spec(cs: Seq<Citation>) -> Seq<char>
    decreases cs.len(),
{
    if cs.len() == 0 {
        Seq::empty()
    } else if cs.len() == 1 {
        citation_object(cs[0])
    } else {
        citations_surql_spec(cs.drop_last()) + ", "@ + citation_object(cs.last())
    }
}

/// The citations of a reply in the form they are stored in: SurrealQL
/// object literals separated by commas.
pub fn citations_surql(citations: &[Citation]) -> (r: String)
    ensures
        r@ == citations_surql_spec(citations@),
{
    let mut out: Vec<char> = Vec::new();
    let mut i: usize = 0;
    while i < citations.len()
        invariant
            i <= citations@.len(),
            out@ == citations_surql_spec(citations@.take(i as int)),
        decreases citations@.len() - i,
    {
        let c = &citations[i];
        let ghost before = out@;
        if i > 0 {
            extend_str(&mut out, ", ");
        }
        let ghost mid = out@;
        extend_str(&mut out, "{ source_name: '");
        push_doubled(&mut out, c.source_name.as_str());
        let ghost mid2 = out@;
        match c.page {
            Some(p) => {
                extend_str(&mut out, "', page: ");
                crate::decimal::push_i64_decimal(&mut out, p);
                extend_str(&mut out, ", text_excerpt: '");
            },
            None => {
                extend_str(&mut out, "', text_excerpt: '");
            },
        }
        push_doubled(&mut out, c.text_excerpt.as_str());
        extend_str(&mut out, "' }");
        proof {
            assert(out@ =~= mid + citation_object(*c));
            assert(citations@.take(i + 1).drop_last() =~= citations@.take(i as int));
            if i == 0 {
                assert(citations@.take(1)[0] == *c);
                assert(out@ =~= citation_object(*c));
            }
        }
        i += 1;
    }
    assert(citations@.take(i as int) =~= citations@);
    string_of(&out)
}

/// The statement that stores an assistant reply with its citations, bound
/// to the campaign `$cid` when `has_campaign`.
pub open spec fn assistant_message_sql_spec(cit_surql: Seq<char>, has_campaign: bool) -> Seq<char> {
    "CREATE message SET role = 'assistant', content = $content, citations = ["@ + cit_surql
        + "], is_gm_only = $gm_only"@ + (if has_campaign {
        ", campaign = type::thing('campaign', $cid)"@
    } else {
        Seq::empty()
    }) + ", created_at = time::now()"@
}

/// Builds the statement that stores an assistant reply with citations.
pub fn assistant_message_sql(cit_surql: &str, has_campaign: bool) -> (r: String)
    ensures
        r@ == assistant_message_sql_spec(cit_surql@, has_campaign),
{
    let mut out: Vec<char> = Vec::new();
    extend_str(&mut out, "CREATE message SET role = 'assistant', content = $content, citations = [");
    extend_str(&mut out, cit_surql);
    extend_str(&mut out, "], is_gm_only = $gm_only");
    let ghost a = out@;
    if has_campaign {
        extend_str(&mut out, ", campaign = type::thing('campaign', $cid)");
    }
    assert(out@ =~= a + (if has_campaign {
        ", campaign = type::thing('campaign', $cid)"@
    } else {
        Seq::<char>::empty()
    }));
    extend_str(&mut out, ", created_at = time::now()");
    string_of(&out)
}


// ── Laws of the marker grammar ─────────────────────────────────────────────

proof fn lemma_skip_ws_to(s: Seq<char>, i: int, q: int)
    requires
        0 <= i <= q < s.len(),
        forall|j: int| i <= j < q ==> is_space_char(#[trigger] s[j]),
        !is_space_char(s[q]),
    ensures
        skip_ws(s, i) == q,
    decreases q - i,
{
    if i < q {
        lemma_skip_ws_to(s, i + 1, q);
    }
}

proof fn lemma_name_end_to(s: Seq<char>, i: int, n: int)
    requires
        0 <= i <= n < s.len(),
        forall|j: int| i <= j < n ==> #[trigger] s[j] != '"',
        s[n] == '"',
    ensures
        name_end(s, i) == n,
    decreases n - i,
{
    if i < n {
        lemma_name_end_to(s, i + 1, n);
    }
}

/// A marker is recognised whatever amount of whitespace (none included)
/// stands between `[Source:` and the opening quote: with `[Source:` at `p`,
/// only whitespace up to a `"` at `q`, and a non-empty name up to the next
/// `"` at `n`, the name runs from `q + 1` to `n`.
pub proof fn lemma_marker_head_any_whitespace(s: Seq<char>, p: int, q: int, n: int)
    requires
        occurs_at(s, MARKER@, p),
        p + MARKER@.len() <= q,
        forall|j: int| p + MARKER@.len() <= j < q ==> is_space_char(#[trigger] s[j]),
        q + 1 < n < s.len(),
        s[q] == '"',
        s[n] == '"',
        forall|j: int| q < j < n ==> #[trigger] s[j] != '"',
    ensures
        marker_head(s, p) == Some((q + 1, n)),
{
    lemma_skip_ws_to(s, p + MARKER@.len(), q);
    lemma_name_end_to(s, q + 1, n);
}

/// A reply that opens with `[Source:`, any amount of whitespace (none
/// included), a quoted non-empty name and `]` yields first the citation of
/// that name, without a page, whose excerpt is the trimmed first eighty
/// characters of what follows the marker.
pub proof fn lemma_leading_citation(ws: Seq<char>, name: Seq<char>, rest: Seq<char>)
    requires
        forall|j: int| 0 <= j < ws.len() ==> is_space_char(#[trigger] ws[j]),
        name.len() > 0,
        forall|j: int| 0 <= j < name.len() ==> #[trigger] name[j] != '"',
    ensures
        ({
            let s = MARKER@ + ws + seq!['"'] + name + seq!['"', ']'] + rest;
            let c = citations_from(s, 0);
            &&& c.len() > 0
            &&& c[0].0 == name
            &&& c[0].1 is None
            &&& c[0].2 == (if rest.len() <= FALLBACK_EXCERPT_LEN {
                trim(rest)
            } else {
                trim(rest.take(FALLBACK_EXCERPT_LEN as int))
            })
        }),
{
    reveal_strlit("[Source:");
    let m = MARKER@;
    let s = m + ws + seq!['"'] + name + seq!['"', ']'] + rest;
    let q: int = (m.len() + ws.len()) as int;
    let n: int = q + 1 + name.len();
    assert(s.subrange(0, m.len() as int) =~= m);
    assert forall|j: int| m.len() <= j < q implies is_space_char(#[trigger] s[j]) by {
        assert(s[j] == ws[j - m.len()]);
    }
    assert forall|j: int| q < j < n implies #[trigger] s[j] != '"' by {
        assert(s[j] == name[j - q - 1]);
    }
    assert(s[q] == '"');
    assert(s[n] == '"');
    assert(s[n + 1] == ']');
    lemma_marker_head_any_whitespace(s, 0, q, n);
    let e: int = n + 1;
    assert(page_digits(s, e) is None);
    assert(page_end(s, e) == e);
    assert(quote_open(s, e) is None);
    assert(bracket_after(s, e));
    assert(find_bracket(s, e) == e);
    let mk = marker_at(s, 0);
    assert(mk == Some((q + 1, n, None::<(int, int)>, None::<(int, int)>, e + 1)));
    assert(s.subrange(q + 1, n) =~= name);
    assert(s.skip(e + 1) =~= rest);
}

} // verus!
