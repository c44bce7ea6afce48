//! Sentence-aware sliding-window chunking.
use vstd::prelude::*;

use super::heading::{heading, is_heading_chars};
use super::types::{Chunk, ChunkSpec, ExtractedDoc, PageContent};
use crate::sentences::{sentence_pieces, split_sentence_bounds};
use crate::text::{
    all_space, is_space_char, lemma_blank_iff_all_space, chars_of, extend_chars, lemma_trim_end, lemma_trim_idempotent, lemma_trim_start, slice_chars, string_of, trim, trim_bounds,
    trim_chars, trim_start, trim_end, join, lemma_trim_start_noop,
};

verus! {

/// Target chunk size in approximate tokens.
pub const TARGET_TOKENS: usize = 250;

/// Overlap between consecutive chunks in approximate tokens (~20% of target).
pub const OVERLAP_TOKENS: usize = 50;

/// Characters per token approximation.
pub const CHARS_PER_TOKEN: usize = 4;

/// Target chunk size in characters.
pub open spec fn target_chars() -> int {
    (TARGET_TOKENS * CHARS_PER_TOKEN) as int
}

/// Overlap between consecutive chunks in characters.
pub open spec fn overlap_chars() -> int {
    (OVERLAP_TOKENS * CHARS_PER_TOKEN) as int
}

// ── Token approximation ────────────────────────────────────────────────────

/// `n / 4` rounded to the nearest integer, halves rounded up.
pub open spec fn approx_tokens(n: int) -> int {
    (n + 2) / 4
}

/// Approximate token count for a text string: its character count divided by
/// 4, rounded to the nearest integer.
pub fn approx_token_count(text: &str) -> (r: usize)
    ensures
        r == approx_tokens(text@.len() as int),
{
    let n = chars_of(text).len();
    let q = n / 4;
    if n % 4 >= 2 {
        q + 1
    } else {
        q
    }
}

// ── Sentences ──────────────────────────────────────────────────────────────

/// The non-blank sentences of `pieces`, trimmed, each with the character
/// offset at which its trimmed text starts; `off` is the offset of `pieces[0]`.
pub open spec fn sentence_entries_from(pieces: Seq<Seq<char>>, off: int) -> Seq<(int, Seq<char>)>
    decreases pieces.len(),
{
    if pieces.len() == 0 {
        Seq::empty()
    } else {
        let p = pieces[0];
        let rest = sentence_entries_from(pieces.drop_first(), off + p.len());
        if trim(p).len() == 0 {
            rest
        } else {
            seq![(off + (p.len() - trim_start(p).len()), trim(p))] + rest
        }
    }
}

/// The sentences of `text` with their starting character offsets.
pub open spec fn sentence_entries(text: Seq<char>) -> Seq<(int, Seq<char>)> {
    sentence_entries_from(sentence_pieces(text), 0)
}

/// Entries lie inside the text the pieces cover and are non-empty.
proof fn lemma_entries_bounds(pieces: Seq<Seq<char>>, off: int)
    requires
        off >= 0,
    ensures
        forall|k: int|
            0 <= k < sentence_entries_from(pieces, off).len() ==> {
                let e = #[trigger] sentence_entries_from(pieces, off)[k];
                &&& off <= e.0
                &&& e.0 + e.1.len() <= off + pieces.flatten().len()
                &&& e.1.len() > 0
            },
    decreases pieces.len(),
{
    if pieces.len() > 0 {
        let p = pieces[0];
        lemma_entries_bounds(pieces.drop_first(), off + p.len());
        assert(pieces.flatten() == p + pieces.drop_first().flatten());
        let rest = sentence_entries_from(pieces.drop_first(), off + p.len());
        if trim(p).len() != 0 {
            lemma_trim_start(p);
            lemma_trim_end(trim_start(p));
            let all = sentence_entries_from(pieces, off);
            assert forall|k: int| 0 <= k < all.len() implies {
                let e = #[trigger] all[k];
                &&& off <= e.0
                &&& e.0 + e.1.len() <= off + pieces.flatten().len()
                &&& e.1.len() > 0
            } by {
                if k > 0 {
                    assert(all[k] == rest[k - 1]);
                }
            }
        }
    }
}

/// A line break inside a sentence piece is its last character.
pub open spec fn breaks_end_pieces(pieces: Seq<Seq<char>>) -> bool {
    forall|j: int, i: int| 0 <= j < pieces.len() && 0 <= i < pieces[j].len() - 1 ==> #[trigger] pieces[j][i] != '\n'
}

/// Entry `e` lies in `t` (which starts at offset `off`), and no character of
/// it before its last is a line break.
pub open spec fn unbroken_entry(t: Seq<char>, off: int, e: (int, Seq<char>)) -> bool {
    &&& off <= e.0
    &&& e.0 + e.1.len() <= off + t.len()
    &&& forall|x: int| e.0 - off <= x < e.0 + e.1.len() - 1 - off ==> #[trigger] t[x] != '\n'
}

/// No line begins strictly inside a sentence.
proof fn lemma_entries_unbroken(pieces: Seq<Seq<char>>, off: int)
    requires
        off >= 0,
        breaks_end_pieces(pieces),
    ensures
        forall|k: int| 0 <= k < sentence_entries_from(pieces, off).len() ==> unbroken_entry(pieces.flatten(), off, #[trigger] sentence_entries_from(pieces, off)[k]),
    decreases pieces.len(),
{
    if pieces.len() > 0 {
        let p0 = pieces[0];
        let d = pieces.drop_first();
        assert forall|j: int, i: int| 0 <= j < d.len() && 0 <= i < d[j].len() - 1 implies #[trigger] d[j][i] != '\n' by {
            assert(d[j] == pieces[j + 1]);
        }
        lemma_entries_unbroken(d, off + p0.len());
        let t = pieces.flatten();
        assert(t == p0 + d.flatten());
        let all = sentence_entries_from(pieces, off);
        let rest = sentence_entries_from(d, off + p0.len());
        lemma_trim_start(p0);
        lemma_trim_end(trim_start(p0));
        assert forall|k: int| 0 <= k < all.len() implies unbroken_entry(t, off, #[trigger] all[k]) by {
            if trim(p0).len() != 0 && k == 0 {
                assert forall|x: int| all[k].0 - off <= x < all[k].0 + all[k].1.len() - 1 - off implies #[trigger] t[x] != '\n' by {
                    assert(t[x] == p0[x]);
                    assert(pieces[0][x] != '\n');
                }
            } else {
                let kk = if trim(p0).len() != 0 {
                    k - 1
                } else {
                    k
                };
                assert(all[k] == rest[kk]);
                assert(unbroken_entry(d.flatten(), off + p0.len(), rest[kk]));
                assert forall|x: int| all[k].0 - off <= x < all[k].0 + all[k].1.len() - 1 - off implies #[trigger] t[x] != '\n' by {
                    assert(t[x] == d.flatten()[x - p0.len()]);
                }
            }
        }
    }
}

/// A sentence with its starting character offset.
pub struct Sentence {
    pub offset: usize,
    pub text: Vec<char>,
}

fn sentence_offsets(text: &str) -> (r: Vec<Sentence>)
    requires
        text@.len() <= usize::MAX,
    ensures
        r@.map_values(|s: Sentence| (s.offset as int, s.text@)) == sentence_entries(text@),
        forall|k: int|
            0 <= k < r@.len() ==> #[trigger] r@[k].offset + r@[k].text@.len() <= text@.len()
                && r@[k].text@.len() > 0,
        sentence_pieces(text@).flatten() == text@,
        breaks_end_pieces(sentence_pieces(text@)),
{
    let pieces = split_sentence_bounds(text);
    let ghost ps = pieces@.map_values(|p: String| p@);
    proof {
        assert forall|j: int, i: int| 0 <= j < ps.len() && 0 <= i < ps[j].len() - 1 implies #[trigger] ps[j][i] != '\n' by {
            assert(ps[j] == pieces@[j]@);
        }
    }
    let mut out: Vec<Sentence> = Vec::new();
    let mut offset: usize = 0;
    let mut k: usize = 0;
    proof {
        assert(ps.skip(0) =~= ps);
        assert(ps.take(0).flatten() =~= Seq::<char>::empty());
        lemma_entries_bounds(ps, 0);
    }
    while k < pieces.len()
        invariant
            k <= pieces@.len(),
            ps == pieces@.map_values(|p: String| p@),
            ps == sentence_pieces(text@),
            ps.flatten() == text@,
            text@.len() <= usize::MAX,
            offset as int == ps.take(k as int).flatten().len(),
            sentence_entries(text@) == out@.map_values(|s: Sentence| (s.offset as int, s.text@))
                + sentence_entries_from(ps.skip(k as int), offset as int),
            forall|m: int|
                0 <= m < out@.len() ==> #[trigger] out@[m].offset + out@[m].text@.len()
                    <= text@.len() && out@[m].text@.len() > 0,
        decreases pieces@.len() - k,
    {
        proof {
            vstd::seq_lib::lemma_flatten_concat(ps.take(k as int), ps.skip(k as int));
            assert(ps.take(k as int) + ps.skip(k as int) =~= ps);
            assert(ps.skip(k as int).flatten() == ps[k as int] + ps.skip(k + 1).flatten()) by {
                assert(ps.skip(k as int).drop_first() =~= ps.skip(k + 1));
            }
            assert(ps.take(k + 1) =~= ps.take(k as int).push(ps[k as int]));
            ps.take(k as int).lemma_flatten_push(ps[k as int]);
            vstd::seq_lib::lemma_flatten_concat(ps.take(k + 1), ps.skip(k + 1));
            assert(ps.take(k + 1) + ps.skip(k + 1) =~= ps);
            lemma_entries_bounds(ps.skip(k as int), offset as int);
        }
        let p = chars_of(pieces[k].as_str());
        assert(p@ == ps[k as int]);
        let plen = p.len();
        proof {
            assert(ps.take(k + 1).flatten() == ps.take(k as int).flatten() + p@);
            assert((ps.take(k + 1) + ps.skip(k + 1)).flatten() == ps.flatten());
            assert(ps.take(k + 1).flatten().len() <= text@.len());
            assert(offset + plen <= text@.len());
        }
        let (a, b) = trim_bounds(&p);
        let ghost prev = out@;
        let ghost rest = sentence_entries_from(ps.skip(k + 1), offset + plen);
        let ghost entry = (offset + (plen - trim_start(p@).len()), trim(p@));
        proof {
            assert(ps.skip(k as int)[0] == p@);
            assert(ps.skip(k as int).drop_first() =~= ps.skip(k + 1));
            assert(sentence_entries_from(ps.skip(k as int), offset as int) == (if trim(p@).len()
                == 0 {
                rest
            } else {
                seq![entry] + rest
            }));
            assert(trim(p@) =~= p@.subrange(a as int, b as int));
            assert(trim_start(p@).len() == plen - a);
        }
        if a < b {
            let t = slice_chars(&p, a, b);
            out.push(Sentence { offset: offset + a, text: t });
            proof {
                assert(out@.map_values(|s: Sentence| (s.offset as int, s.text@)) =~= prev.map_values(
                    |s: Sentence| (s.offset as int, s.text@),
                ) + seq![entry]);
                let last = out@.len() - 1;
                assert(out@[last].offset + out@[last].text@.len() <= text@.len());
                assert forall|m: int| 0 <= m < out@.len() implies #[trigger] out@[m].offset
                    + out@[m].text@.len() <= text@.len() && out@[m].text@.len() > 0 by {
                    if m < last {
                        assert(out@[m] == prev[m]);
                    }
                }
            }
        } else {
            assert(trim(p@).len() == 0);
        }
        offset = offset + plen;
        k += 1;
    }
    proof {
        assert(ps.skip(k as int).len() == 0);
        assert(out@.map_values(|s: Sentence| (s.offset as int, s.text@)) + Seq::<(int, Seq<char>)>::empty()
            =~= out@.map_values(|s: Sentence| (s.offset as int, s.text@)));
    }
    out
}

// ── Lines and headings ─────────────────────────────────────────────────────

/// End of the line that starts at `i`: the index of the next `'\n'`, or the
/// length of `s`.
pub open spec fn line_end(s: Seq<char>, i: int) -> int
    decreases s.len() - i,
{
    if 0 <= i < s.len() && s[i] != '\n' {
        line_end(s, i + 1)
    } else {
        i
    }
}

proof fn lemma_line_end(s: Seq<char>, i: int)
    requires
        0 <= i <= s.len(),
    ensures
        i <= line_end(s, i) <= s.len(),
        line_end(s, i) < s.len() ==> s[line_end(s, i)] == '\n',
    decreases s.len() - i,
{
    if i < s.len() && s[i] != '\n' {
        lemma_line_end(s, i + 1);
    }
}

/// The lines of `s[i..]` as `str::lines` yields them: split at `'\n'`, a
/// `'\r'` right before a `'\n'` dropped, no empty line after a final `'\n'`.
pub open spec fn lines_from(s: Seq<char>, i: int) -> Seq<Seq<char>>
    decreases s.len() - i,
{
    if i < 0 || i >= s.len() {
        Seq::empty()
    } else {
        let e = line_end(s, i);
        if e < i || e > s.len() {
            Seq::empty()
        } else {
            let raw = s.subrange(i, e);
            if e < s.len() {
                let line = if raw.len() > 0 && raw.last() == '\r' {
                    raw.drop_last()
                } else {
                    raw
                };
                seq![line] + lines_from(s, e + 1)
            } else {
                seq![raw]
            }
        }
    }
}

/// Headings among `lines`, each with its character offset, where a line
/// advances the offset by its length plus one.
pub open spec fn headings_of_lines(lines: Seq<Seq<char>>, off: int) -> Seq<(int, Seq<char>)>
    decreases lines.len(),
{
    if lines.len() == 0 {
        Seq::empty()
    } else {
        let rest = headings_of_lines(lines.drop_first(), off + lines[0].len() + 1);
        if heading(lines[0]) {
            seq![(off, trim(lines[0]))] + rest
        } else {
            rest
        }
    }
}

/// All heading positions of `text`, in order.
pub open spec fn headings_in(text: Seq<char>) -> Seq<(int, Seq<char>)> {
    headings_of_lines(lines_from(text, 0), 0)
}

/// In a text without carriage returns every heading begins a line: at the
/// start, or right after a line break.
proof fn lemma_heading_line_starts(s: Seq<char>, i: int)
    requires
        0 <= i,
        forall|j: int| 0 <= j < s.len() ==> s[j] != '\r',
    ensures
        forall|q: int|
            0 <= q < headings_of_lines(lines_from(s, i), i).len() ==> {
                let o = (#[trigger] headings_of_lines(lines_from(s, i), i)[q]).0;
                o == i || (i < o <= s.len() && s[o - 1] == '\n')
            },
    decreases s.len() - i,
{
    if i < s.len() {
        let e = line_end(s, i);
        lemma_line_end(s, i);
        let ls = lines_from(s, i);
        let hl = headings_of_lines(ls, i);
        let raw = s.subrange(i, e);
        if raw.len() > 0 {
            assert(raw.last() == s[e - 1]);
        }
        if e < s.len() {
            lemma_heading_line_starts(s, e + 1);
            assert(ls == seq![raw] + lines_from(s, e + 1));
            assert(ls.drop_first() =~= lines_from(s, e + 1));
            assert(ls[0].len() == e - i);
            let rest = headings_of_lines(lines_from(s, e + 1), e + 1);
            assert forall|q: int| 0 <= q < hl.len() implies {
                let o = (#[trigger] hl[q]).0;
                o == i || (i < o <= s.len() && s[o - 1] == '\n')
            } by {
                if heading(ls[0]) {
                    if q > 0 {
                        assert(hl[q] == rest[q - 1]);
                    }
                } else {
                    assert(hl[q] == rest[q]);
                }
            }
        } else {
            assert(ls =~= seq![raw]);
            assert(ls.drop_first() =~= Seq::<Seq<char>>::empty());
            assert(headings_of_lines(ls.drop_first(), i + ls[0].len() + 1).len() == 0);
            if heading(ls[0]) {
                assert(hl =~= seq![(i, trim(ls[0]))]);
            } else {
                assert(hl.len() == 0);
            }
            assert forall|q: int| 0 <= q < hl.len() implies {
                let o = (#[trigger] hl[q]).0;
                o == i || (i < o <= s.len() && s[o - 1] == '\n')
            } by {
                assert(q == 0);
            }
        }
    }
}

/// A heading with its character offset.
pub struct Heading {
    pub offset: usize,
    pub text: Vec<char>,
}

fn line_end_exec(s: &Vec<char>, i: usize) -> (r: usize)
    requires
        i <= s@.len(),
    ensures
        r as int == line_end(s@, i as int),
        i <= r <= s@.len(),
{
    let mut j = i;
    while j < s.len() && s[j] != '\n'
        invariant
            i <= j <= s@.len(),
            line_end(s@, i as int) == line_end(s@, j as int),
        decreases s@.len() - j,
    {
        j += 1;
    }
    j
}

fn detect_headings(text: &Vec<char>) -> (r: Vec<Heading>)
    requires
        text@.len() < usize::MAX,
    ensures
        r@.map_values(|h: Heading| (h.offset as int, h.text@)) == headings_in(text@),
{
    let mut out: Vec<Heading> = Vec::new();
    let mut i: usize = 0;
    let mut off: usize = 0;
    let n = text.len();
    while i < n
        invariant
            n == text@.len(),
            n < usize::MAX,
            i <= n,
            off <= i,
            headings_in(text@) == out@.map_values(|h: Heading| (h.offset as int, h.text@))
                + headings_of_lines(lines_from(text@, i as int), off as int),
        decreases n - i,
    {
        let e = line_end_exec(text, i);
        let mut line = slice_chars(text, i, e);
        if e < n && line.len() > 0 && line[line.len() - 1] == '\r' {
            line.pop();
        }
        let ghost ls = lines_from(text@, i as int);
        proof {
            assert(ls[0] == line@);
            if e < n {
                assert(ls.drop_first() =~= lines_from(text@, e + 1));
            } else {
                assert(ls.drop_first() =~= Seq::<Seq<char>>::empty());
                assert(lines_from(text@, e as int) == Seq::<Seq<char>>::empty());
            }
        }
        let ghost prev = out@;
        let ghost here: Seq<(int, Seq<char>)> = if heading(line@) {
            seq![(off as int, trim(line@))]
        } else {
            Seq::empty()
        };
        assert(headings_of_lines(ls, off as int) == here + headings_of_lines(
            ls.drop_first(),
            off + line@.len() + 1,
        ));
        if is_heading_chars(&line) {
            let t = trim_chars(&line);
            out.push(Heading { offset: off, text: t });
            proof {
                assert(out@.map_values(|h: Heading| (h.offset as int, h.text@)) =~= prev.map_values(
                    |h: Heading| (h.offset as int, h.text@),
                ) + seq![(off as int, trim(line@))]);
            }
        }
        if e < n {
            off = off + line.len() + 1;
            i = e + 1;
        } else {
            proof {
                assert(headings_of_lines(ls.drop_first(), off + line@.len() + 1).len() == 0);
                assert(out@.map_values(|h: Heading| (h.offset as int, h.text@)) =~= prev.map_values(
                    |h: Heading| (h.offset as int, h.text@),
                ) + here);
            }
            i = n;
            assert(lines_from(text@, n as int).len() == 0);
        }
    }
    proof {
        assert(lines_from(text@, i as int).len() == 0);
        assert(out@.map_values(|h: Heading| (h.offset as int, h.text@)) + Seq::<(int, Seq<char>)>::empty()
            =~= out@.map_values(|h: Heading| (h.offset as int, h.text@)));
    }
    out
}

// ── Pages ──────────────────────────────────────────────────────────────────

/// `(start, end, page_num)` character ranges of `pages`, laid end to end from
/// offset `off`.
pub open spec fn page_offsets_from(pages: Seq<PageContent>, off: int) -> Seq<(int, int, i64)>
    decreases pages.len(),
{
    if pages.len() == 0 {
        Seq::empty()
    } else {
        let len = pages[0].text@.len() as int;
        seq![(off, off + len, pages[0].page_num as i64)] + page_offsets_from(
            pages.drop_first(),
            off + len,
        )
    }
}

/// Total number of characters of `pages`.
pub open spec fn pages_len(pages: Seq<PageContent>) -> int
    decreases pages.len(),
{
    if pages.len() == 0 {
        0
    } else {
        pages[0].text@.len() + pages_len(pages.drop_first())
    }
}

/// A page's character range and number.
pub struct PageSpan {
    pub start: usize,
    pub end: usize,
    pub page_num: i64,
}

proof fn lemma_pages_len_split(pages: Seq<PageContent>, k: int)
    requires
        0 <= k < pages.len(),
    ensures
        pages_len(pages.skip(k)) == pages[k].text@.len() + pages_len(pages.skip(k + 1)),
{
    assert(pages.skip(k).drop_first() =~= pages.skip(k + 1));
}

fn build_page_offsets(pages: &Vec<PageContent>) -> (r: Vec<PageSpan>)
    requires
        pages_len(pages@) <= usize::MAX,
    ensures
        r@.map_values(|p: PageSpan| (p.start as int, p.end as int, p.page_num)) == page_offsets_from(
            pages@,
            0,
        ),
{
    let mut out: Vec<PageSpan> = Vec::new();
    let mut offset: usize = 0;
    let mut k: usize = 0;
    assert(pages@.skip(0) =~= pages@);
    while k < pages.len()
        invariant
            k <= pages@.len(),
            offset + pages_len(pages@.skip(k as int)) <= usize::MAX,
            page_offsets_from(pages@, 0) == out@.map_values(
                |p: PageSpan| (p.start as int, p.end as int, p.page_num),
            ) + page_offsets_from(pages@.skip(k as int), offset as int),
        decreases pages@.len() - k,
    {
        proof {
            lemma_pages_len_split(pages@, k as int);
            assert(pages@.skip(k as int).drop_first() =~= pages@.skip(k + 1));
            assert(pages_len(pages@.skip(k + 1)) >= 0) by {
                lemma_pages_len_nonneg(pages@.skip(k + 1));
            }
        }
        let len = chars_of(pages[k].text.as_str()).len();
        let start = offset;
        offset = offset + len;
        let ghost prev = out@;
        out.push(PageSpan { start, end: offset, page_num: pages[k].page_num as i64 });
        proof {
            assert(out@.map_values(|p: PageSpan| (p.start as int, p.end as int, p.page_num))
                =~= prev.map_values(|p: PageSpan| (p.start as int, p.end as int, p.page_num))
                + seq![(start as int, offset as int, pages@[k as int].page_num as i64)]);
        }
        k += 1;
    }
    assert(pages@.skip(k as int).len() == 0);
    assert(out@.map_values(|p: PageSpan| (p.start as int, p.end as int, p.page_num)) + Seq::<
        (int, int, i64),
    >::empty() =~= out@.map_values(|p: PageSpan| (p.start as int, p.end as int, p.page_num)));
    out
}

proof fn lemma_pages_len_nonneg(pages: Seq<PageContent>)
    ensures
        pages_len(pages) >= 0,
    decreases pages.len(),
{
    if pages.len() > 0 {
        lemma_pages_len_nonneg(pages.drop_first());
    }
}

// ── Headings and page ranges of a chunk ────────────────────────────────────

/// The last heading at or before `pos`, or empty.
pub open spec fn active_heading(pos: int, hs: Seq<(int, Seq<char>)>) -> Seq<char>
    decreases hs.len(),
{
    if hs.len() == 0 {
        Seq::empty()
    } else if hs.last().0 <= pos {
        hs.last().1
    } else {
        active_heading(pos, hs.drop_last())
    }
}

fn find_active_heading(pos: usize, headings: &Vec<Heading>) -> (r: Vec<char>)
    ensures
        r@ == active_heading(pos as int, headings@.map_values(|h: Heading| (h.offset as int, h.text@))),
{
    let ghost hs = headings@.map_values(|h: Heading| (h.offset as int, h.text@));
    let mut k = headings.len();
    assert(hs.take(k as int) =~= hs);
    while k > 0
        invariant
            k <= headings@.len(),
            hs == headings@.map_values(|h: Heading| (h.offset as int, h.text@)),
            active_heading(pos as int, hs) == active_heading(pos as int, hs.take(k as int)),
        decreases k,
    {
        let ghost hk = hs.take(k as int);
        assert(hk.last() == hs[k - 1]);
        assert(hk.drop_last() =~= hs.take(k - 1));
        if headings[k - 1].offset <= pos {
            return slice_chars(&headings[k - 1].text, 0, headings[k - 1].text.len());
        }
        k -= 1;
    }
    Vec::new()
}

/// Page range of the character range `[start, end)`: the page holding
/// `start`, and the last page that holds `end` or that the range reaches
/// into; 1 where none does.
pub open spec fn page_range(start: int, end: int, offs: Seq<(int, int, i64)>) -> (i64, i64)
    decreases offs.len(),
{
    if offs.len() == 0 {
        (1, 1)
    } else {
        let prev = page_range(start, end, offs.drop_last());
        let o = offs.last();
        let ps = if o.0 <= start && start < o.1 {
            o.2
        } else {
            prev.0
        };
        let pe = if o.0 < end && end <= o.1 {
            o.2
        } else {
            prev.1
        };
        let pe2 = if start < o.0 && end > o.0 && o.2 > pe {
            o.2
        } else {
            pe
        };
        (ps, pe2)
    }
}

fn page_range_for_byte_range(start: usize, end: usize, page_offsets: &Vec<PageSpan>) -> (r: (
    i64,
    i64,
))
    ensures
        r == page_range(
            start as int,
            end as int,
            page_offsets@.map_values(|p: PageSpan| (p.start as int, p.end as int, p.page_num)),
        ),
{
    let ghost offs = page_offsets@.map_values(|p: PageSpan| (p.start as int, p.end as int, p.page_num));
    let mut page_start: i64 = 1;
    let mut page_end: i64 = 1;
    let mut k: usize = 0;
    while k < page_offsets.len()
        invariant
            k <= page_offsets@.len(),
            offs == page_offsets@.map_values(
                |p: PageSpan| (p.start as int, p.end as int, p.page_num),
            ),
            (page_start, page_end) == page_range(start as int, end as int, offs.take(k as int)),
        decreases page_offsets@.len() - k,
    {
        proof {
            assert(offs.take(k + 1).drop_last() =~= offs.take(k as int));
        }
        let p = &page_offsets[k];
        if p.start <= start && start < p.end {
            page_start = p.page_num;
        }
        if p.start < end && end <= p.end {
            page_end = p.page_num;
        }
        if start < p.start && end > p.start && p.page_num > page_end {
            page_end = p.page_num;
        }
        k += 1;
    }
    assert(offs.take(k as int) =~= offs);
    (page_start, page_end)
}

/// Character ranges laid end to end: each ends no earlier than it starts,
/// and none starts before an earlier one ends.
pub open spec fn in_page_order(offs: Seq<(int, int, i64)>) -> bool {
    &&& forall|i: int| 0 <= i < offs.len() ==> (#[trigger] offs[i]).0 <= offs[i].1
    &&& forall|i: int, j: int| 0 <= i < j < offs.len() ==> (#[trigger] offs[i]).1 <= (#[trigger] offs[j]).0
}

proof fn lemma_page_offsets_in_order(pages: Seq<PageContent>, off: int)
    ensures
        page_offsets_from(pages, off).len() == pages.len(),
        in_page_order(page_offsets_from(pages, off)),
        forall|i: int| 0 <= i < pages.len() ==> off <= (#[trigger] page_offsets_from(pages, off)[i]).0,
        forall|i: int| 0 <= i < pages.len() ==> (#[trigger] page_offsets_from(pages, off)[i]).2 == pages[i].page_num as i64,
    decreases pages.len(),
{
    if pages.len() > 0 {
        let len = pages[0].text@.len() as int;
        let d = pages.drop_first();
        lemma_page_offsets_in_order(d, off + len);
        let rest = page_offsets_from(d, off + len);
        let offs = page_offsets_from(pages, off);
        assert(offs == seq![(off, off + len, pages[0].page_num as i64)] + rest);
        assert forall|i: int| 0 <= i < offs.len() implies (#[trigger] offs[i]).0 <= offs[i].1 by {
            if i > 0 {
                assert(offs[i] == rest[i - 1]);
            }
        }
        assert forall|i: int, j: int| 0 <= i < j < offs.len() implies (#[trigger] offs[i]).1 <= (#[trigger] offs[j]).0 by {
            assert(offs[j] == rest[j - 1]);
            if i > 0 {
                assert(offs[i] == rest[i - 1]);
            }
        }
        assert forall|i: int| 0 <= i < pages.len() implies off <= (#[trigger] offs[i]).0 by {
            if i > 0 {
                assert(offs[i] == rest[i - 1]);
            }
        }
        assert forall|i: int| 0 <= i < pages.len() implies (#[trigger] offs[i]).2 == pages[i].page_num as i64 by {
            if i > 0 {
                assert(offs[i] == rest[i - 1]);
                assert(d[i - 1] == pages[i]);
            }
        }
    }
}

proof fn lemma_page_range_prefix(start: int, end: int, offs: Seq<(int, int, i64)>, n: int, q1: int, q2: int)
    requires
        in_page_order(offs),
        start < end,
        0 <= q1 < offs.len(),
        offs[q1].0 <= start < offs[q1].1,
        0 <= q2 < offs.len(),
        offs[q2].0 <= end - 1 < offs[q2].1,
        0 <= n <= offs.len(),
    ensures
        n > q1 ==> page_range(start, end, offs.take(n)).0 == offs[q1].2,
        n > q2 ==> page_range(start, end, offs.take(n)).1 == offs[q2].2,
    decreases n,
{
    if n > 0 {
        lemma_page_range_prefix(start, end, offs, n - 1, q1, q2);
        assert(offs.take(n).drop_last() =~= offs.take(n - 1));
        assert(offs.take(n).last() == offs[n - 1]);
        if n - 1 > q1 {
            assert(offs[q1].1 <= offs[n - 1].0);
        }
        if n - 1 > q2 {
            assert(offs[q2].1 <= offs[n - 1].0);
        }
    }
}

/// The pages of a character range: for `[start, end)` within the text of
/// `pages`, `page_range` gives the number of the page that holds character
/// `start` and the number of the page that holds the last character
/// `end - 1`, so a range that runs into a later page ends on that page.
pub proof fn lemma_page_range_pages(pages: Seq<PageContent>, start: int, end: int, q1: int, q2: int)
    requires
        start < end,
        0 <= q1 < pages.len(),
        0 <= q2 < pages.len(),
        page_offsets_from(pages, 0)[q1].0 <= start < page_offsets_from(pages, 0)[q1].1,
        page_offsets_from(pages, 0)[q2].0 <= end - 1 < page_offsets_from(pages, 0)[q2].1,
    ensures
        page_range(start, end, page_offsets_from(pages, 0)) == (pages[q1].page_num as i64, pages[q2].page_num as i64),
{
    let offs = page_offsets_from(pages, 0);
    lemma_page_offsets_in_order(pages, 0);
    lemma_page_range_prefix(start, end, offs, offs.len() as int, q1, q2);
    assert(offs.take(offs.len() as int) =~= offs);
}

// ── The sliding window ─────────────────────────────────────────────────────

/// Some heading of `hs` begins after offset `a` and at or before offset `b`.
pub open spec fn heading_in(hs: Seq<(int, Seq<char>)>, a: int, b: int) -> bool {
    exists|k: int| 0 <= k < hs.len() && a < (#[trigger] hs[k]).0 <= b
}

/// Greedy fill of a chunk that starts at offset `a`, from sentence `j` on,
/// given the text so far: add sentences (joined by one space) until the
/// next one would push a non-empty chunk past the target size, or a section
/// heading begins between the chunk's start and that sentence (a chunk
/// never crosses into a new section). Returns the first sentence not taken
/// and the chunk text.
pub open spec fn fill(sents: Seq<(int, Seq<char>)>, hs: Seq<(int, Seq<char>)>, a: int, j: int, text: Seq<char>) -> (int, Seq<char>)
    decreases sents.len() - j,
{
    if j < 0 || j >= sents.len() {
        (j, text)
    } else if text.len() > 0 && (text.len() + sents[j].1.len() + 1 > target_chars() || heading_in(hs, a, sents[j].0)) {
        (j, text)
    } else {
        fill(
            sents,
            hs,
            a,
            j + 1,
            if text.len() > 0 {
                text.push(' ') + sents[j].1
            } else {
                sents[j].1
            },
        )
    }
}

/// Step back from `new_i` over trailing sentences of the previous chunk
/// until about `overlap_chars()` characters are covered, never reaching `i`.
pub open spec fn back_off(sents: Seq<(int, Seq<char>)>, i: int, new_i: int, size: int) -> int
    decreases new_i,
{
    if new_i > i + 1 && size < overlap_chars() && new_i >= 1 {
        back_off(sents, i, new_i - 1, size + sents[new_i - 1].1.len())
    } else {
        new_i
    }
}

/// First sentence of the chunk after the one spanning sentences `[i, j)`:
/// the sentence that opens a new section when the chunk stopped at one
/// (no overlap across a section break), else about `overlap_chars()` of
/// trailing sentences back, always moving forward.
pub open spec fn next_start(sents: Seq<(int, Seq<char>)>, hs: Seq<(int, Seq<char>)>, i: int, j: int) -> int {
    if 0 <= i && 0 <= j < sents.len() && heading_in(hs, sents[i].0, sents[j].0) {
        j
    } else {
        let b = back_off(sents, i, j, 0);
        if b > i + 1 {
            b
        } else {
            i + 1
        }
    }
}

/// The chunks that start at sentence `i`.
pub open spec fn chunks_from(
    sents: Seq<(int, Seq<char>)>,
    hs: Seq<(int, Seq<char>)>,
    offs: Seq<(int, int, i64)>,
    i: int,
) -> Seq<ChunkSpec>
    decreases sents.len() - i,
{
    if i < 0 || i >= sents.len() {
        Seq::empty()
    } else {
        let f = fill(sents, hs, sents[i].0, i, Seq::empty());
        let j = f.0;
        let t = f.1;
        let start = sents[i].0;
        let pr = page_range(start, start + t.len(), offs);
        let here = if trim(t).len() > 0 {
            seq![
                ChunkSpec {
                    text: trim(t),
                    page_start: pr.0,
                    page_end: pr.1,
                    section_heading: active_heading(start, hs),
                },
            ]
        } else {
            Seq::empty()
        };
        let ni = next_start(sents, hs, i, j);
        if j >= sents.len() || ni <= i || ni > sents.len() {
            here
        } else {
            here + chunks_from(sents, hs, offs, ni)
        }
    }
}

/// The chunks of a document.
pub open spec fn document_chunks(doc: ExtractedDoc) -> Seq<ChunkSpec> {
    chunks_from(
        sentence_entries(doc.text@),
        headings_in(doc.text@),
        page_offsets_from(doc.pages@, 0),
        0,
    )
}

proof fn lemma_chunks_from_shape(
    sents: Seq<(int, Seq<char>)>,
    hs: Seq<(int, Seq<char>)>,
    offs: Seq<(int, int, i64)>,
    i: int,
    cap: int,
)
    ensures
        forall|k: int| 0 <= k < chunks_from(sents, hs, offs, i).len() ==> trim(#[trigger] chunks_from(sents, hs, offs, i)[k].text).len() > 0,
        cap >= target_chars() && (forall|k: int| 0 <= k < sents.len() ==> #[trigger] sents[k].1.len() <= cap) ==> forall|k: int|
            0 <= k < chunks_from(sents, hs, offs, i).len() ==> (#[trigger] chunks_from(sents, hs, offs, i)[k]).text.len() <= cap,
    decreases sents.len() - i,
{
    if i < 0 || i >= sents.len() {
    } else {
        let f = fill(sents, hs, sents[i].0, i, Seq::empty());
        let t = f.1;
        lemma_trim_idempotent(t);
        if cap >= target_chars() && (forall|k: int| 0 <= k < sents.len() ==> #[trigger] sents[k].1.len() <= cap) {
            lemma_fill_len(sents, hs, sents[i].0, i, Seq::empty(), cap);
        }
        let start = sents[i].0;
        let pr = page_range(start, start + t.len(), offs);
        let here = if trim(t).len() > 0 {
            seq![ChunkSpec { text: trim(t), page_start: pr.0, page_end: pr.1, section_heading: active_heading(start, hs) }]
        } else {
            Seq::empty()
        };
        let all = chunks_from(sents, hs, offs, i);
        let ni = next_start(sents, hs, i, f.0);
        if !(f.0 >= sents.len() || ni <= i || ni > sents.len()) {
            lemma_chunks_from_shape(sents, hs, offs, ni, cap);
            let rest = chunks_from(sents, hs, offs, ni);
            assert(all == here + rest);
            assert forall|k: int| 0 <= k < all.len() implies trim(#[trigger] all[k].text).len() > 0 by {
                if k >= here.len() {
                    assert(all[k] == rest[k - here.len()]);
                }
            }
            if cap >= target_chars() && (forall|k: int| 0 <= k < sents.len() ==> #[trigger] sents[k].1.len() <= cap) {
                assert forall|k: int| 0 <= k < all.len() implies (#[trigger] all[k]).text.len() <= cap by {
                    if k >= here.len() {
                        assert(all[k] == rest[k - here.len()]);
                    }
                }
            }
        } else {
            assert(all == here);
        }
    }
}

/// No chunk of a document is blank.
pub proof fn lemma_chunks_not_blank(doc: ExtractedDoc)
    ensures
        forall|k: int| 0 <= k < document_chunks(doc).len() ==> trim(#[trigger] document_chunks(doc)[k].text).len() > 0,
{
    lemma_chunks_from_shape(sentence_entries(doc.text@), headings_in(doc.text@), page_offsets_from(doc.pages@, 0), 0, 0);
}

/// Sentences are grouped up to the target size: a chunk is no longer than
/// the target, or, when one sentence is longer than that, than the longest
/// sentence. `cap` is any bound at least the target and every sentence.
pub proof fn lemma_chunk_length_bounded(doc: ExtractedDoc, cap: int)
    requires
        cap >= target_chars(),
        forall|k: int| 0 <= k < sentence_entries(doc.text@).len() ==> #[trigger] sentence_entries(doc.text@)[k].1.len() <= cap,
    ensures
        forall|k: int| 0 <= k < document_chunks(doc).len() ==> (#[trigger] document_chunks(doc)[k]).text.len() <= cap,
{
    lemma_chunks_from_shape(sentence_entries(doc.text@), headings_in(doc.text@), page_offsets_from(doc.pages@, 0), 0, cap);
}

proof fn lemma_fill_len(sents: Seq<(int, Seq<char>)>, hs: Seq<(int, Seq<char>)>, a: int, j: int, text: Seq<char>, cap: int)
    requires
        cap >= target_chars(),
        text.len() <= cap,
        forall|k: int| 0 <= k < sents.len() ==> #[trigger] sents[k].1.len() <= cap,
    ensures
        fill(sents, hs, a, j, text).1.len() <= cap,
        fill(sents, hs, a, j, text).0 >= j,
        fill(sents, hs, a, j, text).0 <= sents.len() || fill(sents, hs, a, j, text).0 == j,
        j >= 0 && j < sents.len() && text.len() == 0 ==> fill(sents, hs, a, j, text).0 > j,
    decreases sents.len() - j,
{
    if j < 0 || j >= sents.len() {
    } else if text.len() > 0 && (text.len() + sents[j].1.len() + 1 > target_chars() || heading_in(hs, a, sents[j].0)) {
    } else {
        let t2 = if text.len() > 0 {
            text.push(' ') + sents[j].1
        } else {
            sents[j].1
        };
        lemma_fill_len(sents, hs, a, j + 1, t2, cap);
    }
}

proof fn lemma_fill_no_heading(sents: Seq<(int, Seq<char>)>, hs: Seq<(int, Seq<char>)>, a: int, j: int, text: Seq<char>)
    requires
        forall|k: int| 0 <= k < sents.len() ==> (#[trigger] sents[k]).1.len() > 0,
    ensures
        forall|m: int| j <= m < fill(sents, hs, a, j, text).0 && (m > j || text.len() > 0) ==> !heading_in(hs, a, (#[trigger] sents[m]).0),
    decreases sents.len() - j,
{
    if j < 0 || j >= sents.len() {
    } else if text.len() > 0 && (text.len() + sents[j].1.len() + 1 > target_chars() || heading_in(hs, a, sents[j].0)) {
    } else {
        let t2 = if text.len() > 0 {
            text.push(' ') + sents[j].1
        } else {
            sents[j].1
        };
        assert(t2.len() > 0);
        lemma_fill_no_heading(sents, hs, a, j + 1, t2);
    }
}

/// Chunks respect section boundaries: a chunk that starts at sentence `i`
/// takes no later sentence at or before which a new section heading
/// begins (after the chunk's start); when it stops at such a sentence, the
/// next chunk starts exactly there, with no overlap across the break.
pub proof fn lemma_chunks_respect_headings(sents: Seq<(int, Seq<char>)>, hs: Seq<(int, Seq<char>)>, i: int)
    requires
        0 <= i < sents.len(),
        forall|k: int| 0 <= k < sents.len() ==> (#[trigger] sents[k]).1.len() > 0,
    ensures
        forall|m: int| i < m < fill(sents, hs, sents[i].0, i, Seq::empty()).0 ==> !heading_in(hs, sents[i].0, (#[trigger] sents[m]).0),
        fill(sents, hs, sents[i].0, i, Seq::empty()).0 < sents.len() && heading_in(hs, sents[i].0, sents[fill(sents, hs, sents[i].0, i, Seq::empty()).0].0)
            ==> next_start(sents, hs, i, fill(sents, hs, sents[i].0, i, Seq::empty()).0) == fill(sents, hs, sents[i].0, i, Seq::empty()).0,
{
    lemma_fill_no_heading(sents, hs, sents[i].0, i, Seq::empty());
    lemma_fill_ge(sents, hs, sents[i].0, i, Seq::empty());
}

proof fn lemma_fill_long(sents: Seq<(int, Seq<char>)>, hs: Seq<(int, Seq<char>)>, a: int, j: int, text: Seq<char>)
    requires
        text.len() <= target_chars(),
        forall|k: int| 0 <= k < sents.len() ==> (#[trigger] sents[k]).1.len() > 0,
    ensures
        fill(sents, hs, a, j, text).1.len() > target_chars() ==> text.len() == 0 && 0 <= j < sents.len()
            && fill(sents, hs, a, j, text) == (j + 1, sents[j].1),
    decreases sents.len() - j,
{
    if j < 0 || j >= sents.len() {
    } else if text.len() > 0 && (text.len() + sents[j].1.len() + 1 > target_chars() || heading_in(hs, a, sents[j].0)) {
    } else {
        let t2 = if text.len() > 0 {
            text.push(' ') + sents[j].1
        } else {
            sents[j].1
        };
        if t2.len() <= target_chars() {
            lemma_fill_long(sents, hs, a, j + 1, t2);
        } else {
            assert(text.len() == 0);
            assert(t2.len() > 0);
            assert(fill(sents, hs, a, j + 1, t2) == (j + 1, t2));
            assert(fill(sents, hs, a, j, text) == fill(sents, hs, a, j + 1, t2));
        }
    }
}

/// A chunk longer than the target size is a single sentence: the greedy
/// fill only goes past the target when the chunk's first sentence alone
/// does, and then takes nothing more.
pub proof fn lemma_long_chunk_is_one_sentence(sents: Seq<(int, Seq<char>)>, hs: Seq<(int, Seq<char>)>, i: int)
    requires
        0 <= i < sents.len(),
        forall|k: int| 0 <= k < sents.len() ==> (#[trigger] sents[k]).1.len() > 0,
    ensures
        fill(sents, hs, sents[i].0, i, Seq::empty()).1.len() > target_chars() ==> fill(sents, hs, sents[i].0, i, Seq::empty())
            == (i + 1, sents[i].1),
{
    lemma_fill_long(sents, hs, sents[i].0, i, Seq::empty());
}

proof fn lemma_entries_nonempty(pieces: Seq<Seq<char>>, off: int)
    ensures
        sentence_entries_from(pieces, off).len() == 0 <==> all_space(pieces.flatten()),
        sentence_entries_from(pieces, off).len() > 0 ==> !all_space(sentence_entries_from(pieces, off)[0].1),
    decreases pieces.len(),
{
    if pieces.len() > 0 {
        let p = pieces[0];
        let r = pieces.drop_first().flatten();
        lemma_entries_nonempty(pieces.drop_first(), off + p.len());
        assert(pieces.flatten() == p + r);
        lemma_blank_iff_all_space(p);
        lemma_blank_iff_all_space(trim(p));
        lemma_trim_idempotent(p);
        if all_space(p + r) {
            assert forall|k: int| 0 <= k < p.len() implies is_space_char(#[trigger] p[k]) by {
                assert((p + r)[k] == p[k]);
            }
            assert forall|k: int| 0 <= k < r.len() implies is_space_char(#[trigger] r[k]) by {
                assert((p + r)[p.len() + k] == r[k]);
            }
        } else if all_space(p) {
            let k = choose|k: int| 0 <= k < (p + r).len() && !is_space_char(#[trigger] (p + r)[k]);
            assert(k >= p.len());
            assert(r[k - p.len()] == (p + r)[k]);
        }
    } else {
        assert(pieces.flatten() =~= Seq::<char>::empty());
    }
}

proof fn lemma_fill_keeps_first(sents: Seq<(int, Seq<char>)>, hs: Seq<(int, Seq<char>)>, a: int, j: int, text: Seq<char>)
    requires
        text.len() > 0,
    ensures
        fill(sents, hs, a, j, text).1.len() >= text.len(),
        fill(sents, hs, a, j, text).1.take(text.len() as int) == text,
    decreases sents.len() - j,
{
    if j < 0 || j >= sents.len() {
        assert(text.take(text.len() as int) =~= text);
    } else if text.len() > 0 && (text.len() + sents[j].1.len() + 1 > target_chars() || heading_in(hs, a, sents[j].0)) {
        assert(text.take(text.len() as int) =~= text);
    } else {
        let t2 = text.push(' ') + sents[j].1;
        lemma_fill_keeps_first(sents, hs, a, j + 1, t2);
        let f = fill(sents, hs, a, j + 1, t2).1;
        assert(f.take(text.len() as int) =~= t2.take(text.len() as int));
        assert(t2.take(text.len() as int) =~= text);
    }
}

/// A document yields at least one chunk exactly when its text is not blank.
/// The sentence pieces are those the segmentation cuts the text into, which
/// together make up the text.
pub proof fn lemma_chunks_iff_not_blank(doc: ExtractedDoc)
    requires
        sentence_pieces(doc.text@).flatten() == doc.text@,
    ensures
        document_chunks(doc).len() > 0 <==> trim(doc.text@).len() > 0,
{
    let sents = sentence_entries(doc.text@);
    let hs = headings_in(doc.text@);
    let offs = page_offsets_from(doc.pages@, 0);
    lemma_entries_nonempty(sentence_pieces(doc.text@), 0);
    lemma_blank_iff_all_space(doc.text@);
    if sents.len() > 0 {
        let s0 = sents[0].1;
        let k = choose|k: int| 0 <= k < s0.len() && !is_space_char(#[trigger] s0[k]);
        let f = fill(sents, hs, sents[0].0, 0, Seq::empty());
        let t = f.1;
        assert(s0.len() > 0);
        // the first chunk begins with the first sentence
        assert(fill(sents, hs, sents[0].0, 0, Seq::empty()) == fill(sents, hs, sents[0].0, 1, s0));
        lemma_fill_keeps_first(sents, hs, sents[0].0, 1, s0);
        assert(t.take(s0.len() as int)[k] == t[k]);
        assert(!is_space_char(t[k]));
        lemma_blank_iff_all_space(t);
        let ch = chunks_from(sents, hs, offs, 0);
        lemma_chunks_from_shape(sents, hs, offs, 0, 0);
        assert(trim(t).len() > 0);
        let ni = next_start(sents, hs, 0, f.0);
        if f.0 >= sents.len() || ni <= 0 || ni > sents.len() {
            assert(ch.len() == 1);
        } else {
            assert(ch.len() >= 1);
        }
    } else {
        assert(chunks_from(sents, hs, offs, 0).len() == 0);
    }
}

proof fn lemma_entries_solid(pieces: Seq<Seq<char>>, off: int)
    ensures
        forall|k: int| 0 <= k < sentence_entries_from(pieces, off).len() ==> !all_space((#[trigger] sentence_entries_from(pieces, off)[k]).1),
    decreases pieces.len(),
{
    if pieces.len() > 0 {
        let p = pieces[0];
        lemma_entries_solid(pieces.drop_first(), off + p.len());
        let rest = sentence_entries_from(pieces.drop_first(), off + p.len());
        let all = sentence_entries_from(pieces, off);
        if trim(p).len() != 0 {
            lemma_trim_idempotent(p);
            lemma_blank_iff_all_space(trim(p));
            assert forall|k: int| 0 <= k < all.len() implies !all_space((#[trigger] all[k]).1) by {
                if k > 0 {
                    assert(all[k] == rest[k - 1]);
                }
            }
        }
    }
}

/// Every sentence of a document holds a visible character, so the span law
/// of `lemma_chunk_spans` applies to the chunks of a document.
pub proof fn lemma_document_sentences_solid(text: Seq<char>)
    ensures
        forall|k: int| 0 <= k < sentence_entries(text).len() ==> !all_space((#[trigger] sentence_entries(text)[k]).1),
{
    lemma_entries_solid(sentence_pieces(text), 0);
}

/// Total length of the sentences `[x, y)`.
pub open spec fn span_len(sents: Seq<(int, Seq<char>)>, x: int, y: int) -> int
    decreases y - x,
{
    if x >= y {
        0
    } else {
        sents[x].1.len() + span_len(sents, x + 1, y)
    }
}

proof fn lemma_back_off_overlap(sents: Seq<(int, Seq<char>)>, i: int, new_i: int, size: int, j: int)
    requires
        0 <= i,
        i + 1 <= new_i <= j,
        size == span_len(sents, new_i, j),
        new_i < j ==> span_len(sents, new_i + 1, j) < overlap_chars(),
    ensures
        i + 1 <= back_off(sents, i, new_i, size) <= new_i,
        back_off(sents, i, new_i, size) > i + 1 ==> span_len(sents, back_off(sents, i, new_i, size), j) >= overlap_chars(),
        back_off(sents, i, new_i, size) < j ==> span_len(sents, back_off(sents, i, new_i, size) + 1, j) < overlap_chars(),
        new_i > i + 1 && size < overlap_chars() ==> back_off(sents, i, new_i, size) < new_i,
    decreases new_i,
{
    if new_i > i + 1 && size < overlap_chars() && new_i >= 1 {
        assert(span_len(sents, new_i - 1, j) == sents[new_i - 1].1.len() + span_len(sents, new_i, j));
        lemma_back_off_overlap(sents, i, new_i - 1, size + sents[new_i - 1].1.len(), j);
    }
}

/// The overlap between consecutive chunks, when no section break stops the
/// first: the next chunk starts at a sentence `a2` with `i < a2 <= j`
/// (where the first chunk spans sentences `[i, j)`); it repeats at least the
/// last sentence when the first chunk has two or more; the sentences after
/// `a2` up to `j` total less than the overlap size; and when it starts
/// later than `i + 1`, the repeated sentences total at least the overlap
/// size.
pub proof fn lemma_chunk_overlap(sents: Seq<(int, Seq<char>)>, hs: Seq<(int, Seq<char>)>, i: int, j: int)
    requires
        0 <= i < j <= sents.len(),
        !(j < sents.len() && heading_in(hs, sents[i].0, sents[j].0)),
    ensures
        i < next_start(sents, hs, i, j) <= j,
        j - i >= 2 ==> next_start(sents, hs, i, j) < j,
        next_start(sents, hs, i, j) < j ==> span_len(sents, next_start(sents, hs, i, j) + 1, j) < overlap_chars(),
        next_start(sents, hs, i, j) > i + 1 ==> span_len(sents, next_start(sents, hs, i, j), j) >= overlap_chars(),
{
    assert(span_len(sents, j, j) == 0);
    lemma_back_off_overlap(sents, i, j, 0, j);
}

/// The sentence span `[start, end)` of each chunk that `chunks_from`
/// yields from sentence `i`, in the same order.
pub open spec fn chunk_spans(sents: Seq<(int, Seq<char>)>, hs: Seq<(int, Seq<char>)>, i: int) -> Seq<(int, int)>
    decreases sents.len() - i,
{
    if i < 0 || i >= sents.len() {
        Seq::empty()
    } else {
        let f = fill(sents, hs, sents[i].0, i, Seq::empty());
        let j = f.0;
        let here = if trim(f.1).len() > 0 {
            seq![(i, j)]
        } else {
            Seq::empty()
        };
        let ni = next_start(sents, hs, i, j);
        if j >= sents.len() || ni <= i || ni > sents.len() {
            here
        } else {
            here + chunk_spans(sents, hs, ni)
        }
    }
}

/// The sentences of a span, as the greedy fill joins them.
pub open spec fn span_text(sents: Seq<(int, Seq<char>)>, hs: Seq<(int, Seq<char>)>, i: int) -> Seq<char> {
    fill(sents, hs, sents[i].0, i, Seq::empty()).1
}

/// Some span of `sp` holds sentence `m`.
pub open spec fn span_covers(sp: Seq<(int, int)>, m: int) -> bool {
    exists|k: int| 0 <= k < sp.len() && sp[k].0 <= m < #[trigger] sp[k].1
}

proof fn lemma_next_start_bounds(sents: Seq<(int, Seq<char>)>, hs: Seq<(int, Seq<char>)>, i: int, j: int)
    requires
        0 <= i < j,
    ensures
        i < next_start(sents, hs, i, j) <= j,
{
    if !(0 <= j < sents.len() && heading_in(hs, sents[i].0, sents[j].0)) {
        lemma_back_off(sents, i, j, 0);
    }
}

/// The chunks of a run of sentences, with their spans: chunk `k` is the
/// trimmed join of the sentences `spans[k]`, carries the heading active at
/// its first sentence, and the spans start at `i`, move strictly forward,
/// leave no sentence out (each next span starts no later than the previous
/// one ends), and the last one ends at the last sentence. So every sentence
/// lies, unaltered, in some chunk, and chunks keep document order.
pub proof fn lemma_chunk_spans(sents: Seq<(int, Seq<char>)>, hs: Seq<(int, Seq<char>)>, offs: Seq<(int, int, i64)>, i: int)
    requires
        0 <= i < sents.len(),
        forall|k: int| 0 <= k < sents.len() ==> !all_space((#[trigger] sents[k]).1),
    ensures
        chunk_spans(sents, hs, i).len() == chunks_from(sents, hs, offs, i).len(),
        chunk_spans(sents, hs, i).len() > 0,
        chunk_spans(sents, hs, i)[0].0 == i,
        chunk_spans(sents, hs, i).last().1 == sents.len(),
        forall|k: int| 0 <= k < chunk_spans(sents, hs, i).len() ==> {
            let sp = #[trigger] chunk_spans(sents, hs, i)[k];
            &&& i <= sp.0 < sp.1 <= sents.len()
            &&& fill(sents, hs, sents[sp.0].0, sp.0, Seq::empty()).0 == sp.1
            &&& chunks_from(sents, hs, offs, i)[k].text == trim(span_text(sents, hs, sp.0))
            &&& chunks_from(sents, hs, offs, i)[k].section_heading == active_heading(sents[sp.0].0, hs)
            &&& chunks_from(sents, hs, offs, i)[k].page_start == page_range(sents[sp.0].0, sents[sp.0].0 + span_text(sents, hs, sp.0).len(), offs).0
            &&& chunks_from(sents, hs, offs, i)[k].page_end == page_range(sents[sp.0].0, sents[sp.0].0 + span_text(sents, hs, sp.0).len(), offs).1
        },
        forall|k: int| 0 <= k < chunk_spans(sents, hs, i).len() - 1 ==> chunk_spans(sents, hs, i)[k].0 < chunk_spans(sents, hs, i)[k + 1].0
            <= #[trigger] chunk_spans(sents, hs, i)[k].1,
        forall|k: int| 0 <= k < chunk_spans(sents, hs, i).len() - 1 ==> chunk_spans(sents, hs, i)[k + 1].0 == next_start(
            sents,
            hs,
            (#[trigger] chunk_spans(sents, hs, i)[k]).0,
            chunk_spans(sents, hs, i)[k].1,
        ),
        forall|m: int| i <= m < sents.len() ==> #[trigger] span_covers(chunk_spans(sents, hs, i), m),
    decreases sents.len() - i,
{
    let f = fill(sents, hs, sents[i].0, i, Seq::empty());
    let j = f.0;
    let t = f.1;
    let s0 = sents[i].1;
    lemma_fill_ge(sents, hs, sents[i].0, i + 1, s0);
    // the chunk begins with its first sentence, so it is not blank
    assert(f == fill(sents, hs, sents[i].0, i + 1, s0));
    assert(s0.len() > 0);
    lemma_fill_keeps_first(sents, hs, sents[i].0, i + 1, s0);
    let q = choose|q: int| 0 <= q < s0.len() && !is_space_char(#[trigger] s0[q]);
    assert(t.take(s0.len() as int)[q] == t[q]);
    lemma_blank_iff_all_space(t);
    assert(trim(t).len() > 0);
    let sp = chunk_spans(sents, hs, i);
    let ch = chunks_from(sents, hs, offs, i);
    let ni = next_start(sents, hs, i, j);
    assert(i < j);
    if j >= sents.len() || ni <= i || ni > sents.len() {
        assert(sp == seq![(i, j)]);
        if j < sents.len() {
            lemma_next_start_bounds(sents, hs, i, j);
        }
        lemma_fill_le(sents, hs, sents[i].0, i + 1, s0);
        assert(j == sents.len());
        assert forall|m: int| i <= m < sents.len() implies #[trigger] span_covers(sp, m) by {
            assert(sp[0].0 <= m < sp[0].1);
        }
    } else {
        lemma_next_start_bounds(sents, hs, i, j);
        lemma_chunk_spans(sents, hs, offs, ni);
        let rs = chunk_spans(sents, hs, ni);
        let rc = chunks_from(sents, hs, offs, ni);
        assert(sp == seq![(i, j)] + rs);
        assert(sp.last() == rs.last());
        assert forall|k: int| 0 <= k < sp.len() implies {
            let e = #[trigger] sp[k];
            &&& i <= e.0 < e.1 <= sents.len()
            &&& fill(sents, hs, sents[e.0].0, e.0, Seq::empty()).0 == e.1
            &&& ch[k].text == trim(span_text(sents, hs, e.0))
            &&& ch[k].section_heading == active_heading(sents[e.0].0, hs)
            &&& ch[k].page_start == page_range(sents[e.0].0, sents[e.0].0 + span_text(sents, hs, e.0).len(), offs).0
            &&& ch[k].page_end == page_range(sents[e.0].0, sents[e.0].0 + span_text(sents, hs, e.0).len(), offs).1
        } by {
            if k > 0 {
                assert(sp[k] == rs[k - 1]);
                assert(ch[k] == rc[k - 1]);
            } else {
                lemma_fill_le(sents, hs, sents[i].0, i + 1, s0);
            }
        }
        assert forall|k: int| 0 <= k < sp.len() - 1 implies sp[k].0 < sp[k + 1].0 <= #[trigger] sp[k].1 by {
            if k > 0 {
                assert(sp[k] == rs[k - 1]);
                assert(sp[k + 1] == rs[k]);
            } else {
                assert(sp[1] == rs[0]);
            }
        }
        assert forall|k: int| 0 <= k < sp.len() - 1 implies sp[k + 1].0 == next_start(sents, hs, (#[trigger] sp[k]).0, sp[k].1) by {
            if k > 0 {
                assert(sp[k] == rs[k - 1]);
                assert(sp[k + 1] == rs[k]);
            } else {
                assert(sp[1] == rs[0]);
            }
        }
        assert forall|m: int| i <= m < sents.len() implies #[trigger] span_covers(sp, m) by {
            if m < j {
                assert(sp[0].0 <= m < sp[0].1);
            } else {
                assert(span_covers(rs, m));
                let k2 = choose|k2: int| 0 <= k2 < rs.len() && rs[k2].0 <= m < #[trigger] rs[k2].1;
                assert(sp[k2 + 1] == rs[k2]);
            }
        }
    }
}

proof fn lemma_fill_le(sents: Seq<(int, Seq<char>)>, hs: Seq<(int, Seq<char>)>, a: int, j: int, text: Seq<char>)
    requires
        0 <= j <= sents.len(),
    ensures
        fill(sents, hs, a, j, text).0 <= sents.len(),
    decreases sents.len() - j,
{
    if j < sents.len() && !(text.len() > 0 && (text.len() + sents[j].1.len() + 1 > target_chars() || heading_in(hs, a, sents[j].0))) {
        let t2 = if text.len() > 0 {
            text.push(' ') + sents[j].1
        } else {
            sents[j].1
        };
        lemma_fill_le(sents, hs, a, j + 1, t2);
    }
}

proof fn lemma_fill_ge(sents: Seq<(int, Seq<char>)>, hs: Seq<(int, Seq<char>)>, a: int, j: int, text: Seq<char>)
    ensures
        fill(sents, hs, a, j, text).0 >= j,
    decreases sents.len() - j,
{
    if j < 0 || j >= sents.len() {
    } else if text.len() > 0 && (text.len() + sents[j].1.len() + 1 > target_chars() || heading_in(hs, a, sents[j].0)) {
    } else {
        let t2 = if text.len() > 0 {
            text.push(' ') + sents[j].1
        } else {
            sents[j].1
        };
        lemma_fill_ge(sents, hs, a, j + 1, t2);
    }
}

proof fn lemma_back_off(sents: Seq<(int, Seq<char>)>, i: int, new_i: int, size: int)
    requires
        i + 1 <= new_i,
    ensures
        i + 1 <= back_off(sents, i, new_i, size) <= new_i,
    decreases new_i,
{
    if new_i > i + 1 && size < overlap_chars() && new_i >= 1 {
        lemma_back_off(sents, i, new_i - 1, size + sents[new_i - 1].1.len());
    }
}

/// True when a heading begins after offset `a` and at or before offset `b`.
fn heading_between(headings: &Vec<Heading>, a: usize, b: usize) -> (r: bool)
    ensures
        r == heading_in(headings@.map_values(|h: Heading| (h.offset as int, h.text@)), a as int, b as int),
{
    let ghost hs = headings@.map_values(|h: Heading| (h.offset as int, h.text@));
    let mut k: usize = 0;
    while k < headings.len()
        invariant
            k <= headings@.len(),
            hs == headings@.map_values(|h: Heading| (h.offset as int, h.text@)),
            forall|m: int| 0 <= m < k ==> !(a < (#[trigger] hs[m]).0 <= b),
        decreases headings@.len() - k,
    {
        let p = headings[k].offset;
        if a < p && p <= b {
            assert(a < hs[k as int].0 <= b);
            return true;
        }
        k += 1;
    }
    false
}

/// Split an extracted document into searchable chunks.
///
/// 1. Detect section headings across the full text.
/// 2. Split the text into sentences and group them greedily up to about
///    `TARGET_TOKENS` tokens per chunk; a chunk never takes a sentence at or
///    after which a new section begins.
/// 3. Start each next chunk about `OVERLAP_TOKENS` tokens of trailing
///    sentences before the end of the previous one (always moving forward),
///    or exactly at the new section when the previous chunk stopped at one.
/// 4. Tag each chunk with its page range and active section heading.
///
/// There are chunks exactly when the text is not blank, and in a text
/// without carriage returns no heading line begins inside a chunk (see
/// `lemma_document_chunks` for the rest of what the chunks are).
pub fn chunk_document(doc: &ExtractedDoc) -> (r: Vec<Chunk>)
    requires
        doc.text@.len() <= isize::MAX,
        pages_len(doc.pages@) <= usize::MAX,
    ensures
        r@.map_values(|c: Chunk| c.spec()) == document_chunks(*doc),
        r@.len() > 0 <==> trim(doc.text@).len() > 0,
        (forall|j: int| 0 <= j < doc.text@.len() ==> doc.text@[j] != '\r') ==> headings_outside_chunks(doc.text@),
{
    let text = chars_of(doc.text.as_str());
    let headings = detect_headings(&text);
    let page_offsets = build_page_offsets(&doc.pages);
    let sentences = sentence_offsets(doc.text.as_str());
    proof {
        lemma_chunks_iff_not_blank(*doc);
        if forall|j: int| 0 <= j < doc.text@.len() ==> doc.text@[j] != '\r' {
            lemma_headings_outside_chunks(*doc);
        }
    }
    let ghost sents = sentences@.map_values(|s: Sentence| (s.offset as int, s.text@));
    let ghost hs = headings@.map_values(|h: Heading| (h.offset as int, h.text@));
    let ghost offs = page_offsets@.map_values(|p: PageSpan| (p.start as int, p.end as int, p.page_num));
    let ghost cap = if (text@.len() as int) > target_chars() {
        text@.len() as int
    } else {
        target_chars()
    };
    let n = sentences.len();
    let mut chunks: Vec<Chunk> = Vec::new();
    if n == 0 {
        assert(chunks_from(sents, hs, offs, 0) =~= Seq::<ChunkSpec>::empty());
        return chunks;
    }
    let mut i: usize = 0;
    proof {
        assert forall|k: int| 0 <= k < sents.len() implies #[trigger] sents[k].1.len() <= cap by {
            assert(sents[k].1 == sentences@[k].text@);
        }
    }
    while i < n
        invariant
            n == sentences@.len(),
            sents == sentences@.map_values(|s: Sentence| (s.offset as int, s.text@)),
            hs == headings@.map_values(|h: Heading| (h.offset as int, h.text@)),
            offs == page_offsets@.map_values(|p: PageSpan| (p.start as int, p.end as int, p.page_num)),
            sents == sentence_entries(doc.text@),
            hs == headings_in(doc.text@),
            offs == page_offsets_from(doc.pages@, 0),
            text@ == doc.text@,
            (forall|j: int| 0 <= j < doc.text@.len() ==> doc.text@[j] != '\r') ==> headings_outside_chunks(doc.text@),
            document_chunks(*doc).len() > 0 <==> trim(doc.text@).len() > 0,
            text@.len() <= isize::MAX,
            cap >= target_chars(),
            cap == (if (text@.len() as int) > target_chars() { text@.len() as int } else { target_chars() }),
            forall|k: int| 0 <= k < sents.len() ==> #[trigger] sents[k].1.len() <= cap,
            forall|k: int|
                #![trigger sentences@[k]]
                0 <= k < sentences@.len() ==> sentences@[k].offset + sentences@[k].text@.len()
                    <= text@.len() && sentences@[k].text@.len() > 0,
            document_chunks(*doc) == chunks@.map_values(|c: Chunk| c.spec()) + chunks_from(
                sents,
                hs,
                offs,
                i as int,
            ),
        decreases n - i,
    {
        let chunk_start_char = sentences[i].offset;
        let mut chunk_text: Vec<char> = Vec::new();
        let mut j = i;
        let ghost a = chunk_start_char as int;
        proof {
            lemma_fill_len(sents, hs, a, i as int, Seq::empty(), cap);
            assert(sents[i as int].0 == a);
        }
        while j < n
            invariant
                i <= j <= n,
                n == sentences@.len(),
                sents == sentences@.map_values(|s: Sentence| (s.offset as int, s.text@)),
                hs == headings@.map_values(|h: Heading| (h.offset as int, h.text@)),
                a == chunk_start_char as int,
                chunk_text@.len() <= cap,
                cap >= target_chars(),
                forall|k: int| 0 <= k < sents.len() ==> #[trigger] sents[k].1.len() <= cap,
                j == i <==> chunk_text@.len() == 0,
                forall|k: int| #![trigger sentences@[k]] 0 <= k < sentences@.len() ==> sentences@[k].text@.len() > 0,
                fill(sents, hs, a, i as int, Seq::empty()) == fill(sents, hs, a, j as int, chunk_text@),
                i < n,
            ensures
                fill(sents, hs, a, i as int, Seq::empty()) == (j as int, chunk_text@),
                i < j <= n,
                chunk_text@.len() <= cap,
            decreases n - j,
        {
            let next_len = sentences[j].text.len();
            assert(sents[j as int].1.len() == next_len);
            assert(sents[j as int].0 == sentences@[j as int].offset);
            if chunk_text.len() > 0 {
                let over = next_len >= 1000 || chunk_text.len() >= 1000 || chunk_text.len() + next_len + 1 > 1000;
                assert(over == (chunk_text@.len() + next_len + 1 > target_chars()));
                if over || heading_between(&headings, chunk_start_char, sentences[j].offset) {
                    break;
                }
            }
            let ghost before = chunk_text@;
            if chunk_text.len() > 0 {
                chunk_text.push(' ');
            }
            assert(sents[j as int].1 == sentences@[j as int].text@);
            assert(target_chars() == 1000);
            extend_chars(&mut chunk_text, &sentences[j].text);
            assert(chunk_text@ == (if before.len() > 0 {
                before.push(' ')
            } else {
                before
            }) + sents[j as int].1);
            j += 1;
        }
        let ghost f = fill(sents, hs, a, i as int, Seq::empty());
        assert(f == (j as int, chunk_text@));
        assert(sents[i as int].0 == chunk_start_char as int);
        let ghost start = chunk_start_char as int;
        let ghost pr = page_range(start, start + chunk_text@.len(), offs);
        let ghost here: Seq<ChunkSpec> = if trim(chunk_text@).len() > 0 {
            seq![
                ChunkSpec {
                    text: trim(chunk_text@),
                    page_start: pr.0,
                    page_end: pr.1,
                    section_heading: active_heading(start, hs),
                },
            ]
        } else {
            Seq::empty()
        };
        let ghost prev = chunks@;
        let (ta, tb) = trim_bounds(&chunk_text);
        if ta < tb {
            assert(chunk_start_char + chunk_text@.len() <= usize::MAX);
            let chunk_end_char = chunk_start_char + chunk_text.len();
            let heading = find_active_heading(chunk_start_char, &headings);
            let (ps, pe) = page_range_for_byte_range(chunk_start_char, chunk_end_char, &page_offsets);
            let t = slice_chars(&chunk_text, ta, tb);
            let c = Chunk {
                text: string_of(&t),
                page_start: ps,
                page_end: pe,
                section_heading: string_of(&heading),
            };
            assert(c.spec() == here[0]);
            chunks.push(c);
            assert(chunks@.map_values(|c: Chunk| c.spec()) =~= prev.map_values(|c: Chunk| c.spec())
                + here);
        } else {
            assert(chunks@.map_values(|c: Chunk| c.spec()) =~= prev.map_values(|c: Chunk| c.spec())
                + here);
        }
        if j >= n {
            assert(chunks_from(sents, hs, offs, i as int) == here);
            assert(document_chunks(*doc) == chunks@.map_values(|c: Chunk| c.spec()));
            return chunks;
        }
        let ni;
        if heading_between(&headings, chunk_start_char, sentences[j].offset) {
            assert(sents[j as int].0 == sentences@[j as int].offset);
            ni = j;
        } else {
            assert(sents[j as int].0 == sentences@[j as int].offset);
            let mut overlap_size: usize = 0;
            let mut new_i = j;
            proof {
                lemma_back_off(sents, i as int, j as int, 0);
            }
            while new_i > i + 1 && overlap_size < 200
                invariant
                    i + 1 <= new_i <= j,
                    n == sentences@.len(),
                    j <= n,
                    sents == sentences@.map_values(|s: Sentence| (s.offset as int, s.text@)),
                    overlap_size < 200 + text@.len(),
                    text@.len() <= isize::MAX,
                    forall|k: int|
                        #![trigger sentences@[k]]
                        0 <= k < sentences@.len() ==> sentences@[k].offset + sentences@[k].text@.len()
                            <= text@.len(),
                    back_off(sents, i as int, j as int, 0) == back_off(
                        sents,
                        i as int,
                        new_i as int,
                        overlap_size as int,
                    ),
                decreases new_i,
            {
                new_i -= 1;
                assert(sents[new_i as int].1.len() == sentences@[new_i as int].text@.len());
                overlap_size += sentences[new_i].text.len();
            }
            ni = if new_i > i + 1 {
                new_i
            } else {
                i + 1
            };
        }
        assert(ni as int == next_start(sents, hs, i as int, j as int));
        assert(chunks_from(sents, hs, offs, i as int) == here + chunks_from(sents, hs, offs, ni as int));
        assert(chunks@.map_values(|c: Chunk| c.spec()) + chunks_from(sents, hs, offs, ni as int)
            =~= prev.map_values(|c: Chunk| c.spec()) + chunks_from(sents, hs, offs, i as int));
        i = ni;
    }
    assert(chunks_from(sents, hs, offs, i as int) =~= Seq::<ChunkSpec>::empty());
    assert(chunks@.map_values(|c: Chunk| c.spec()) + Seq::<ChunkSpec>::empty() =~= chunks@.map_values(
        |c: Chunk| c.spec(),
    ));
    chunks
}

// ── The chunks of a document, in document terms ────────────────────────────

/// The texts of the sentences.
pub open spec fn sentence_texts(sents: Seq<(int, Seq<char>)>) -> Seq<Seq<char>> {
    sents.map_values(|e: (int, Seq<char>)| e.1)
}

/// `s` is non-empty and neither starts nor ends with whitespace.
pub open spec fn is_trimmed(s: Seq<char>) -> bool {
    s.len() > 0 && !is_space_char(s[0]) && !is_space_char(s.last())
}

proof fn lemma_trimmed_fixed(s: Seq<char>)
    requires
        is_trimmed(s),
    ensures
        trim(s) == s,
{
    lemma_trim_start_noop(s);
}

proof fn lemma_entries_trimmed(pieces: Seq<Seq<char>>, off: int)
    ensures
        forall|k: int| 0 <= k < sentence_entries_from(pieces, off).len() ==> is_trimmed((#[trigger] sentence_entries_from(pieces, off)[k]).1),
    decreases pieces.len(),
{
    if pieces.len() > 0 {
        let p = pieces[0];
        lemma_entries_trimmed(pieces.drop_first(), off + p.len());
        let rest = sentence_entries_from(pieces.drop_first(), off + p.len());
        let all = sentence_entries_from(pieces, off);
        if trim(p).len() != 0 {
            let t = trim_start(p);
            lemma_trim_start(p);
            lemma_trim_end(t);
            assert(trim(p)[0] == t[0]);
            assert forall|k: int| 0 <= k < all.len() implies is_trimmed((#[trigger] all[k]).1) by {
                if k > 0 {
                    assert(all[k] == rest[k - 1]);
                }
            }
        }
    }
}

proof fn lemma_join_trimmed(parts: Seq<Seq<char>>)
    requires
        parts.len() > 0,
        forall|k: int| 0 <= k < parts.len() ==> is_trimmed(#[trigger] parts[k]),
    ensures
        is_trimmed(join(parts, seq![' '])),
    decreases parts.len(),
{
    assert(is_trimmed(parts[0]));
    assert(is_trimmed(parts[parts.len() - 1]));
    if parts.len() > 1 {
        let d = parts.drop_last();
        assert forall|k: int| 0 <= k < d.len() implies is_trimmed(#[trigger] d[k]) by {
            assert(d[k] == parts[k]);
        }
        lemma_join_trimmed(d);
        let j = join(parts, seq![' ']);
        assert(j == join(d, seq![' ']) + seq![' '] + parts.last());
        assert(j[0] == join(d, seq![' '])[0]);
        assert(d[0] == parts[0]);
    }
}

proof fn lemma_fill_join(sents: Seq<(int, Seq<char>)>, hs: Seq<(int, Seq<char>)>, a: int, i: int, j: int, text: Seq<char>)
    requires
        0 <= i <= j <= sents.len(),
        text == join(sentence_texts(sents).subrange(i, j), seq![' ']),
        forall|k: int| 0 <= k < sents.len() ==> (#[trigger] sents[k]).1.len() > 0,
    ensures
        i <= fill(sents, hs, a, j, text).0 <= sents.len(),
        fill(sents, hs, a, j, text).1 == join(sentence_texts(sents).subrange(i, fill(sents, hs, a, j, text).0), seq![' ']),
    decreases sents.len() - j,
{
    let tx = sentence_texts(sents);
    if j >= sents.len() {
    } else if text.len() > 0 && (text.len() + sents[j].1.len() + 1 > target_chars() || heading_in(hs, a, sents[j].0)) {
    } else {
        let t2 = if text.len() > 0 {
            text.push(' ') + sents[j].1
        } else {
            sents[j].1
        };
        let sub = tx.subrange(i, j + 1);
        assert(sub.last() == sents[j].1);
        assert(sub.drop_last() =~= tx.subrange(i, j));
        if text.len() > 0 {
            assert(i < j);
            assert(t2 =~= join(sub.drop_last(), seq![' ']) + seq![' '] + sub.last());
        } else {
            if i < j {
                assert(tx.subrange(i, j)[0] == sents[i].1);
                lemma_join_nonempty(tx.subrange(i, j));
            }
            assert(i == j);
            assert(sub.len() == 1);
        }
        assert(t2 == join(sub, seq![' ']));
        lemma_fill_join(sents, hs, a, i, j + 1, t2);
    }
}

proof fn lemma_join_nonempty(parts: Seq<Seq<char>>)
    requires
        parts.len() > 0,
        parts[0].len() > 0,
    ensures
        join(parts, seq![' ']).len() > 0,
    decreases parts.len(),
{
    if parts.len() > 1 {
        assert(parts.drop_last()[0] == parts[0]);
        lemma_join_nonempty(parts.drop_last());
    }
}

/// The heading active at `pos` is the text of the last heading (in the
/// given order) that begins at or before `pos`, and empty when none does.
pub proof fn lemma_active_heading_is_last(pos: int, hs: Seq<(int, Seq<char>)>)
    ensures
        (forall|k: int| 0 <= k < hs.len() ==> (#[trigger] hs[k]).0 > pos) ==> active_heading(pos, hs) == Seq::<char>::empty(),
        (exists|k: int| 0 <= k < hs.len() && (#[trigger] hs[k]).0 <= pos) ==> exists|k: int|
            0 <= k < hs.len() && (#[trigger] hs[k]).0 <= pos && active_heading(pos, hs) == hs[k].1 && forall|m: int|
                k < m < hs.len() ==> (#[trigger] hs[m]).0 > pos,
    decreases hs.len(),
{
    if hs.len() > 0 {
        let d = hs.drop_last();
        lemma_active_heading_is_last(pos, d);
        if hs.last().0 <= pos {
            assert(hs[hs.len() - 1].0 <= pos);
        } else {
            if forall|k: int| 0 <= k < hs.len() ==> (#[trigger] hs[k]).0 > pos {
                assert forall|k: int| 0 <= k < d.len() implies (#[trigger] d[k]).0 > pos by {
                    assert(d[k] == hs[k]);
                }
            }
            if exists|k: int| 0 <= k < hs.len() && (#[trigger] hs[k]).0 <= pos {
                let k0 = choose|k: int| 0 <= k < hs.len() && (#[trigger] hs[k]).0 <= pos;
                assert(k0 < hs.len() - 1);
                assert(d[k0] == hs[k0]);
                let k = choose|k: int| 0 <= k < d.len() && (#[trigger] d[k]).0 <= pos && active_heading(pos, d) == d[k].1 && forall|m: int|
                    k < m < d.len() ==> (#[trigger] d[m]).0 > pos;
                assert(hs[k] == d[k]);
                assert forall|m: int| k < m < hs.len() implies (#[trigger] hs[m]).0 > pos by {
                    if m < hs.len() - 1 {
                        assert(hs[m] == d[m]);
                    }
                }
            }
        }
    }
}

proof fn lemma_spans_start_at_least(sp: Seq<(int, int)>, k: int)
    requires
        0 <= k < sp.len(),
        sp[0].0 >= 0,
        forall|q: int| 0 <= q < sp.len() - 1 ==> (#[trigger] sp[q]).0 < sp[q + 1].0,
    ensures
        sp[k].0 >= k,
    decreases k,
{
    if k > 0 {
        lemma_spans_start_at_least(sp, k - 1);
    }
}

/// Chunk `k`, spanning sentences `sp[k]`, is those sentences joined by
/// single spaces; it is no longer than the target unless it is one
/// sentence; its heading is the one active at its first sentence; and no
/// heading begins after its first sentence's start and at or before the
/// start of any later sentence of it.
pub open spec fn chunk_law(s: Seq<(int, Seq<char>)>, hs: Seq<(int, Seq<char>)>, ch: Seq<ChunkSpec>, sp: Seq<(int, int)>, k: int) -> bool {
    let e = sp[k];
    let tx = sentence_texts(s);
    &&& 0 <= e.0 < e.1 <= s.len()
    &&& ch[k].text == join(tx.subrange(e.0, e.1), seq![' '])
    &&& (ch[k].text.len() <= target_chars() || (e.1 == e.0 + 1 && ch[k].text == tx[e.0]))
    &&& ch[k].section_heading == active_heading(s[e.0].0, hs)
    &&& forall|m: int| e.0 < m < e.1 ==> !heading_in(hs, s[e.0].0, (#[trigger] s[m]).0)
}

/// Between chunks `k` and `k + 1`: either a heading begins at the next
/// chunk's first sentence and nothing overlaps, or the overlap bounds hold.
pub open spec fn overlap_law(s: Seq<(int, Seq<char>)>, hs: Seq<(int, Seq<char>)>, sp: Seq<(int, int)>, k: int) -> bool {
    let a = sp[k].0;
    let b = sp[k].1;
    let a2 = sp[k + 1].0;
    ||| (b < s.len() && heading_in(hs, s[a].0, s[b].0) && a2 == b)
    ||| ((b - a >= 2 ==> a2 < b) && (a2 < b ==> span_len(s, a2 + 1, b) < overlap_chars()) && (a2 > a + 1 ==> span_len(s, a2, b)
        >= overlap_chars()))
}

#[verifier::spinoff_prover]
proof fn lemma_chunk_law(s: Seq<(int, Seq<char>)>, hs: Seq<(int, Seq<char>)>, offs: Seq<(int, int, i64)>, a: int, b: int, c: ChunkSpec)
    requires
        0 <= a < b <= s.len(),
        fill(s, hs, s[a].0, a, Seq::empty()).0 == b,
        c.text == trim(span_text(s, hs, a)),
        c.section_heading == active_heading(s[a].0, hs),
        forall|k: int| 0 <= k < s.len() ==> is_trimmed((#[trigger] s[k]).1),
    ensures
        c.text == join(sentence_texts(s).subrange(a, b), seq![' ']),
        c.text.len() <= target_chars() || (b == a + 1 && c.text == sentence_texts(s)[a]),
        forall|m: int| a < m < b ==> !heading_in(hs, s[a].0, (#[trigger] s[m]).0),
{
    let tx = sentence_texts(s);
    assert forall|k: int| 0 <= k < s.len() implies (#[trigger] s[k]).1.len() > 0 by {
        assert(is_trimmed(s[k].1));
    }
    assert forall|k: int| 0 <= k < s.len() implies !all_space((#[trigger] s[k]).1) by {
        assert(is_trimmed(s[k].1));
        assert(!is_space_char(s[k].1[0]));
    }
    assert(tx.subrange(a, a) =~= Seq::<Seq<char>>::empty());
    lemma_fill_join(s, hs, s[a].0, a, a, Seq::empty());
    let f = fill(s, hs, s[a].0, a, Seq::empty());
    let parts = tx.subrange(a, b);
    assert forall|q: int| 0 <= q < parts.len() implies is_trimmed(#[trigger] parts[q]) by {
        assert(parts[q] == s[a + q].1);
    }
    lemma_join_trimmed(parts);
    lemma_trimmed_fixed(join(parts, seq![' ']));
    lemma_chunks_respect_headings(s, hs, a);
    lemma_long_chunk_is_one_sentence(s, hs, a);
    if c.text.len() > target_chars() {
        assert(parts.len() == 1);
        assert(parts[0] == tx[a]);
    }
}

/// The chunks of a document in terms of its sentences `S` (the trimmed,
/// non-blank pieces of the sentence segmentation, with their offsets) and
/// its heading lines (see `chunk_law` and `overlap_law`): `a_0 == 0`, the
/// last span ends at the last sentence, and `a_k < a_{k+1} <= b_k`, so
/// every sentence lies, unaltered, in some chunk, the chunks keep document
/// order, and there are no more chunks than sentences.
#[verifier::spinoff_prover]
pub proof fn lemma_document_chunks(doc: ExtractedDoc)
    ensures
        sentence_entries(doc.text@).len() == 0 ==> document_chunks(doc).len() == 0,
        sentence_entries(doc.text@).len() > 0 ==> {
            let s = sentence_entries(doc.text@);
            let hs = headings_in(doc.text@);
            let sp = chunk_spans(s, hs, 0);
            let ch = document_chunks(doc);
            &&& ch.len() == sp.len()
            &&& 0 < ch.len() <= s.len()
            &&& sp[0].0 == 0
            &&& sp.last().1 == s.len()
            &&& forall|k: int| 0 <= k < sp.len() - 1 ==> sp[k].0 < sp[k + 1].0 <= #[trigger] sp[k].1
            &&& forall|k: int| 0 <= k < sp.len() ==> #[trigger] chunk_law(s, hs, ch, sp, k)
            &&& forall|k: int| 0 <= k < sp.len() - 1 ==> #[trigger] overlap_law(s, hs, sp, k)
        },
{
    let s = sentence_entries(doc.text@);
    let hs = headings_in(doc.text@);
    let offs = page_offsets_from(doc.pages@, 0);
    let sp = chunk_spans(s, hs, 0);
    let ch = document_chunks(doc);
    if s.len() == 0 {
        assert(ch.len() == 0);
    } else {
        lemma_document_sentences_solid(doc.text@);
        lemma_entries_trimmed(sentence_pieces(doc.text@), 0);
        lemma_chunk_spans(s, hs, offs, 0);
        assert forall|k: int| 0 <= k < sp.len() implies #[trigger] chunk_law(s, hs, ch, sp, k) by {
            lemma_chunk_law(s, hs, offs, sp[k].0, sp[k].1, ch[k]);
        }
        lemma_spans_start_at_least(sp, sp.len() - 1);
        assert forall|k: int| 0 <= k < sp.len() - 1 implies #[trigger] overlap_law(s, hs, sp, k) by {
            let a = sp[k].0;
            let b = sp[k].1;
            if !(b < s.len() && heading_in(hs, s[a].0, s[b].0)) {
                lemma_chunk_overlap(s, hs, a, b);
            }
        }
    }
}


/// No heading line begins strictly inside the extent of a chunk, from its
/// first sentence's start to its last sentence's end: a section break never
/// falls inside a chunk.
pub open spec fn headings_outside_chunks(text: Seq<char>) -> bool {
    let s = sentence_entries(text);
    let hs = headings_in(text);
    let sp = chunk_spans(s, hs, 0);
    forall|k: int, q: int|
        #![trigger sp[k], hs[q]]
        0 <= k < sp.len() && 0 <= q < hs.len() ==> !(s[sp[k].0].0 < hs[q].0 < s[sp[k].1 - 1].0 + s[sp[k].1 - 1].1.len())
}

/// In a text without carriage returns, whose sentence pieces concatenate to
/// it and end at their line breaks, no heading begins inside a chunk.
proof fn lemma_headings_outside_chunks(doc: ExtractedDoc)
    requires
        sentence_pieces(doc.text@).flatten() == doc.text@,
        breaks_end_pieces(sentence_pieces(doc.text@)),
        forall|j: int| 0 <= j < doc.text@.len() ==> doc.text@[j] != '\r',
    ensures
        headings_outside_chunks(doc.text@),
{
    let text = doc.text@;
    let s = sentence_entries(text);
    let hs = headings_in(text);
    let sp = chunk_spans(s, hs, 0);
    lemma_document_chunks(doc);
    lemma_entries_unbroken(sentence_pieces(text), 0);
    lemma_heading_line_starts(text, 0);
    if s.len() > 0 {
        assert forall|k: int, q: int| #![trigger sp[k], hs[q]]
            0 <= k < sp.len() && 0 <= q < hs.len() implies !(s[sp[k].0].0 < hs[q].0 < s[sp[k].1 - 1].0 + s[sp[k].1 - 1].1.len()) by {
            let a = sp[k].0;
            let b = sp[k].1;
            assert(chunk_law(s, hs, document_chunks(doc), sp, k));
            let o = hs[q].0;
            if s[a].0 < o && o < s[b - 1].0 + s[b - 1].1.len() {
                if o <= s[b - 1].0 {
                    assert(b - 1 > a);
                    assert(heading_in(hs, s[a].0, s[b - 1].0));
                } else {
                    assert(unbroken_entry(text, 0, s[b - 1]));
                    assert(text[o - 1] != '\n');
                    assert(headings_of_lines(lines_from(text, 0), 0)[q].0 == o);
                }
            }
        }
    }
}


/// The pages of every chunk: with its first sentence starting at `start`
/// and its text `len` characters long, a chunk's `page_start` is the number
/// of the page that holds character `start` and its `page_end` the number of
/// the page that holds character `start + len - 1`, so a chunk that runs
/// into a later page ends on that page.
pub proof fn lemma_chunk_pages(doc: ExtractedDoc, k: int, q1: int, q2: int)
    requires
        0 <= k < document_chunks(doc).len(),
        0 <= q1 < doc.pages@.len(),
        0 <= q2 < doc.pages@.len(),
        ({
            let s = sentence_entries(doc.text@);
            let sp = chunk_spans(s, headings_in(doc.text@), 0);
            let start = s[sp[k].0].0;
            let end = start + document_chunks(doc)[k].text.len();
            let offs = page_offsets_from(doc.pages@, 0);
            &&& offs[q1].0 <= start < offs[q1].1
            &&& offs[q2].0 <= end - 1 < offs[q2].1
        }),
    ensures
        document_chunks(doc)[k].page_start == doc.pages@[q1].page_num as i64,
        document_chunks(doc)[k].page_end == doc.pages@[q2].page_num as i64,
{
    let text = doc.text@;
    let s = sentence_entries(text);
    let hs = headings_in(text);
    let offs = page_offsets_from(doc.pages@, 0);
    let sp = chunk_spans(s, hs, 0);
    let ch = document_chunks(doc);
    lemma_document_chunks(doc);
    if s.len() == 0 {
        assert(false);
    }
    lemma_document_sentences_solid(text);
    lemma_entries_trimmed(sentence_pieces(text), 0);
    lemma_chunk_spans(s, hs, offs, 0);
    let a = sp[k].0;
    let b = sp[k].1;
    assert(chunk_law(s, hs, ch, sp, k));
    assert forall|m: int| 0 <= m < s.len() implies (#[trigger] s[m]).1.len() > 0 by {
        assert(!all_space(s[m].1));
    }
    assert(sentence_texts(s).subrange(a, a) =~= Seq::<Seq<char>>::empty());
    lemma_fill_join(s, hs, s[a].0, a, a, Seq::empty());
    assert(span_text(s, hs, a) == ch[k].text);
    lemma_page_range_pages(doc.pages@, s[a].0, s[a].0 + ch[k].text.len(), q1, q2);
}

} // verus!
