//! Text extraction from PDF pages: the extractor interface, and the layout
//! decisions that turn a page's characters into text in which styled
//! headings stand in paragraphs of their own.
use vstd::prelude::*;
use crate::chunker::types::{ExtractedDoc, PageContent};
use crate::ingestion::joined_pages;
use crate::text::{chars_of, extend_chars, is_blank, string_of, trim, trim_chars};

verus! {

/// Failures of PDF extraction.
#[derive(Debug)]
pub enum PdfExtractError {
    LibLoad(String),
    Parse(String),
}

/// Something that turns PDF bytes into pages of text.
pub trait PdfExtractor {
    fn extract(&self, data: &[u8]) -> Result<ExtractedDoc, PdfExtractError>;
}

#[verifier::external_type_specification]
#[verifier::external_body]
pub struct ExPathBuf(std::path::PathBuf);

/// The extractor backed by the pdfium library at `library_path`.
pub struct PdfiumExtractor {
    library_path: std::path::PathBuf,
}

impl PdfiumExtractor {
    /// The path of the pdfium library this extractor binds to.
    pub closed spec fn path(&self) -> std::path::PathBuf {
        self.library_path
    }

    /// An extractor bound to the pdfium library at `library_path`.
    pub fn new(library_path: std::path::PathBuf) -> (r: Self)
        ensures
            r.path() == library_path,
    {
        PdfiumExtractor { library_path }
    }

    /// The path of the pdfium library.
    pub fn library_path(&self) -> (r: &std::path::PathBuf)
        ensures
            *r == self.path(),
    {
        &self.library_path
    }
}

// ── Body font size ─────────────────────────────────────────────────────────

/// How often `k` occurs in `keys`.
pub open spec fn count_of(keys: Seq<u32>, k: u32) -> nat
    decreases keys.len(),
{
    if keys.len() == 0 {
        0
    } else {
        count_of(keys.drop_last(), k) + if keys.last() == k {
            1nat
        } else {
            0nat
        }
    }
}

/// Size key used when a page has no characters.
pub const DEFAULT_SIZE_KEY: u32 = 20;

/// The most common font-size key of a page (the body text size): a key that
/// occurs at least as often as any other; `DEFAULT_SIZE_KEY` for no keys.
pub fn body_size_key(keys: &[u32]) -> (r: u32)
    ensures
        keys@.len() == 0 ==> r == DEFAULT_SIZE_KEY,
        keys@.len() > 0 ==> keys@.contains(r) && forall|k: u32| count_of(keys@, r) >= #[trigger] count_of(keys@, k),
{
    if keys.len() == 0 {
        return DEFAULT_SIZE_KEY;
    }
    let mut best: u32 = keys[0];
    let mut best_count: usize = 0;
    let mut i: usize = 0;
    while i < keys.len()
        invariant
            0 < keys@.len(),
            i <= keys@.len(),
            keys@.contains(best),
            i > 0 ==> best_count == count_of(keys@, best),
            i == 0 ==> best == keys@[0] && best_count == 0,
            forall|j: int| 0 <= j < i ==> count_of(keys@, best) >= #[trigger] count_of(keys@, keys@[j]),
        decreases keys@.len() - i,
    {
        let c = count_in(keys, keys[i]);
        if i == 0 || c > best_count {
            best = keys[i];
            best_count = c;
        }
        i += 1;
    }
    proof {
        assert forall|k: u32| count_of(keys@, best) >= #[trigger] count_of(keys@, k) by {
            if !keys@.contains(k) {
                lemma_count_absent(keys@, k);
            } else {
                let j = choose|j: int| 0 <= j < keys@.len() && keys@[j] == k;
                assert(count_of(keys@, best) >= count_of(keys@, keys@[j]));
            }
        }
    }
    best
}

proof fn lemma_count_absent(keys: Seq<u32>, k: u32)
    requires
        !keys.contains(k),
    ensures
        count_of(keys, k) == 0,
    decreases keys.len(),
{
    if keys.len() > 0 {
        assert(!keys.drop_last().contains(k)) by {
            if keys.drop_last().contains(k) {
                let j = choose|j: int| 0 <= j < keys.drop_last().len() && keys.drop_last()[j] == k;
                assert(keys[j] == k);
            }
        }
        lemma_count_absent(keys.drop_last(), k);
    }
}

proof fn lemma_count_bound(keys: Seq<u32>, k: u32)
    ensures
        count_of(keys, k) <= keys.len(),
    decreases keys.len(),
{
    if keys.len() > 0 {
        lemma_count_bound(keys.drop_last(), k);
    }
}

fn count_in(keys: &[u32], k: u32) -> (r: usize)
    ensures
        r == count_of(keys@, k),
{
    let mut n: usize = 0;
    let mut i: usize = 0;
    while i < keys.len()
        invariant
            i <= keys@.len(),
            n == count_of(keys@.take(i as int), k),
            n <= i,
        decreases keys@.len() - i,
    {
        assert(keys@.take(i + 1).drop_last() =~= keys@.take(i as int));
        if keys[i] == k {
            n += 1;
        }
        i += 1;
    }
    assert(keys@.take(i as int) =~= keys@);
    n
}

// ── Visual lines ───────────────────────────────────────────────────────────

/// An explicit line break character of a page.
pub open spec fn is_break(c: char) -> bool {
    c == '\n' || c == '\r'
}

/// The visual lines of a page as index ranges `[start, end)` of `chars`,
/// after the first `n` characters have been seen: `cur` is the open line
/// (`None` when empty). A break character closes the open line and belongs
/// to none; a character whose vertical position jumped from the previous
/// one (`jumps[i]`) starts a new line.
pub open spec fn lines_state(chars: Seq<char>, jumps: Seq<bool>, n: nat) -> (Seq<(int, int)>, Option<int>)
    decreases n,
{
    if n == 0 {
        (Seq::empty(), None)
    } else {
        let (done, cur) = lines_state(chars, jumps, (n - 1) as nat);
        let i = n - 1;
        if is_break(chars[i]) {
            match cur {
                Some(s) => (done.push((s, i)), None),
                None => (done, None),
            }
        } else {
            match cur {
                Some(s) => if i > 0 && !is_break(chars[i - 1]) && jumps[i] {
                    (done.push((s, i)), Some(i))
                } else {
                    (done, Some(s))
                },
                None => (done, Some(i)),
            }
        }
    }
}

/// The visual lines of a page.
pub open spec fn lines_spec(chars: Seq<char>, jumps: Seq<bool>) -> Seq<(int, int)> {
    let (done, cur) = lines_state(chars, jumps, chars.len());
    match cur {
        Some(s) => done.push((s, chars.len() as int)),
        None => done,
    }
}

/// Groups a page's characters into visual lines, given for each character
/// whether its vertical position jumped from the previous character's.
pub fn page_lines(chars: &[char], jumps: &[bool]) -> (r: Vec<(usize, usize)>)
    requires
        jumps@.len() == chars@.len(),
    ensures
        r@.len() == lines_spec(chars@, jumps@).len(),
        forall|k: int| 0 <= k < r@.len() ==> (#[trigger] r@[k]).0 as int == lines_spec(chars@, jumps@)[k].0
            && r@[k].1 as int == lines_spec(chars@, jumps@)[k].1 && r@[k].0 < r@[k].1 <= chars@.len(),
{
    let mut done: Vec<(usize, usize)> = Vec::new();
    let mut cur: Option<usize> = None;
    let mut i: usize = 0;
    while i < chars.len()
        invariant
            jumps@.len() == chars@.len(),
            i <= chars@.len(),
            done@.len() == lines_state(chars@, jumps@, i as nat).0.len(),
            forall|k: int| 0 <= k < done@.len() ==> (#[trigger] done@[k]).0 as int == lines_state(chars@, jumps@, i as nat).0[k].0
                && done@[k].1 as int == lines_state(chars@, jumps@, i as nat).0[k].1 && done@[k].0 < done@[k].1 <= i,
            match cur {
                Some(s) => lines_state(chars@, jumps@, i as nat).1 == Some(s as int) && s < i,
                None => lines_state(chars@, jumps@, i as nat).1 is None,
            },
        decreases chars@.len() - i,
    {
        let c = chars[i];
        let ghost before = done@;
        if c == '\n' || c == '\r' {
            match cur {
                Some(s) => {
                    done.push((s, i));
                },
                None => {},
            }
            cur = None;
        } else {
            match cur {
                Some(s) => {
                    if i > 0 && !(chars[i - 1] == '\n' || chars[i - 1] == '\r') && jumps[i] {
                        done.push((s, i));
                        cur = Some(i);
                    }
                },
                None => {
                    cur = Some(i);
                },
            }
        }
        proof {
            let st = lines_state(chars@, jumps@, (i + 1) as nat);
            assert forall|k: int| 0 <= k < done@.len() implies (#[trigger] done@[k]).0 as int == st.0[k].0
                && done@[k].1 as int == st.0[k].1 && done@[k].0 < done@[k].1 <= i + 1 by {
                if k < before.len() {
                    assert(done@[k] == before[k]);
                }
            }
        }
        i += 1;
    }
    match cur {
        Some(s) => {
            let ghost before = done@;
            done.push((s, chars.len()));
            proof {
                let ls = lines_spec(chars@, jumps@);
                assert forall|k: int| 0 <= k < done@.len() implies (#[trigger] done@[k]).0 as int == ls[k].0
                    && done@[k].1 as int == ls[k].1 && done@[k].0 < done@[k].1 <= chars@.len() by {
                    if k < before.len() {
                        assert(done@[k] == before[k]);
                    }
                }
            }
        },
        None => {},
    }
    done
}

// ── Assembling a page ──────────────────────────────────────────────────────

/// `s` ends with `t`.
pub open spec fn ends_with(s: Seq<char>, t: Seq<char>) -> bool {
    s.len() >= t.len() && s.skip(s.len() - t.len()) == t
}

/// A blank line after `out`: at most one empty line in a row.
pub open spec fn paragraph_break(out: Seq<char>) -> Seq<char> {
    if ends_with(out, seq!['\n', '\n']) {
        out
    } else if ends_with(out, seq!['\n']) {
        out.push('\n')
    } else {
        out.push('\n').push('\n')
    }
}

/// The page text after the first `n` lines: a blank line becomes a
/// paragraph break; a styled heading stands trimmed in a paragraph of its
/// own; any other line is kept as it is, ending in a newline.
pub open spec fn page_text_upto(lines: Seq<Seq<char>>, styled: Seq<bool>, n: nat) -> Seq<char>
    decreases n,
{
    if n == 0 {
        Seq::empty()
    } else {
        let out = page_text_upto(lines, styled, (n - 1) as nat);
        let line = lines[n - 1];
        let t = trim(line);
        if t.len() == 0 {
            paragraph_break(out)
        } else if styled[n - 1] {
            (if out.len() > 0 {
                paragraph_break(out)
            } else {
                out
            }) + t + seq!['\n', '\n']
        } else {
            out + line + seq!['\n']
        }
    }
}

proof fn lemma_paragraph_break_ends(out: Seq<char>)
    ensures
        ends_with(paragraph_break(out), seq!['\n', '\n']),
        out.len() <= paragraph_break(out).len(),
        paragraph_break(out).take(out.len() as int) == out,
{
    let p = paragraph_break(out);
    if ends_with(out, seq!['\n', '\n']) {
        assert(p.take(out.len() as int) =~= out);
    } else if ends_with(out, seq!['\n']) {
        assert(out.skip(out.len() - 1)[0] == out[out.len() - 1]);
        assert(p.skip(p.len() - 2) =~= seq!['\n', '\n']);
        assert(p.take(out.len() as int) =~= out);
    } else {
        assert(p.skip(p.len() - 2) =~= seq!['\n', '\n']);
        assert(p.take(out.len() as int) =~= out);
    }
}

/// A styled heading stands as a paragraph of its own: the text up to and
/// including a non-blank styled line is the text before it (unchanged, then
/// closed by a paragraph break unless it is empty), the trimmed heading, and
/// a blank line.
pub proof fn lemma_heading_paragraph(lines: Seq<Seq<char>>, styled: Seq<bool>, n: nat)
    requires
        0 < n <= lines.len(),
        styled.len() == lines.len(),
        styled[n - 1],
        trim(lines[n - 1]).len() > 0,
    ensures
        exists|p: Seq<char>|
            page_text_upto(lines, styled, n) == p + trim(lines[n - 1]) + seq!['\n', '\n'] && (p.len() == 0 || ends_with(
                p,
                seq!['\n', '\n'],
            )) && p.take(page_text_upto(lines, styled, (n - 1) as nat).len() as int) == page_text_upto(lines, styled, (n - 1) as nat),
{
    let out = page_text_upto(lines, styled, (n - 1) as nat);
    let p = if out.len() > 0 {
        paragraph_break(out)
    } else {
        out
    };
    lemma_paragraph_break_ends(out);
    if out.len() == 0 {
        assert(p.take(0) =~= out);
    }
    assert(page_text_upto(lines, styled, n) == p + trim(lines[n - 1]) + seq!['\n', '\n']);
}

proof fn lemma_page_text_grows(lines: Seq<Seq<char>>, styled: Seq<bool>, n: nat, m: nat)
    requires
        n <= m <= lines.len(),
        styled.len() == lines.len(),
    ensures
        page_text_upto(lines, styled, n).len() <= page_text_upto(lines, styled, m).len(),
        page_text_upto(lines, styled, m).take(page_text_upto(lines, styled, n).len() as int) == page_text_upto(lines, styled, n),
    decreases m - n,
{
    let a = page_text_upto(lines, styled, n);
    if n == m {
        assert(a.take(a.len() as int) =~= a);
    } else {
        lemma_page_text_grows(lines, styled, n, (m - 1) as nat);
        let out = page_text_upto(lines, styled, (m - 1) as nat);
        let full = page_text_upto(lines, styled, m);
        lemma_paragraph_break_ends(out);
        let pb = paragraph_break(out);
        let line = lines[m - 1];
        let head = if trim(line).len() == 0 {
            pb
        } else if styled[m - 1] {
            if out.len() > 0 {
                pb
            } else {
                out
            }
        } else {
            out
        };
        assert(head.len() >= out.len() && head.take(out.len() as int) == out);
        assert(full.len() >= head.len() && full.take(head.len() as int) =~= head);
        assert(full.take(a.len() as int) =~= out.take(a.len() as int));
    }
}

/// The page text begins with `p` (empty or ending in a paragraph break),
/// then the heading `t`, then a blank line.
pub open spec fn heading_prefix(page: Seq<char>, p: Seq<char>, t: Seq<char>) -> bool {
    let h = p + t + seq!['\n', '\n'];
    &&& (p.len() == 0 || ends_with(p, seq!['\n', '\n']))
    &&& h.len() <= page.len()
    &&& page.take(h.len() as int) == h
}

/// Over a whole page: every non-blank styled line stands as a paragraph of
/// its own, that is the page text begins with some text that is empty or
/// ends in a paragraph break, followed by the trimmed heading and a blank
/// line.
pub proof fn lemma_page_headings(lines: Seq<Seq<char>>, styled: Seq<bool>, n: nat)
    requires
        0 < n <= lines.len(),
        styled.len() == lines.len(),
        styled[n - 1],
        trim(lines[n - 1]).len() > 0,
    ensures
        exists|p: Seq<char>| #[trigger] heading_prefix(page_text_upto(lines, styled, lines.len()), p, trim(lines[n - 1])),
{
    let out = page_text_upto(lines, styled, (n - 1) as nat);
    let p = if out.len() > 0 {
        paragraph_break(out)
    } else {
        out
    };
    lemma_paragraph_break_ends(out);
    lemma_page_text_grows(lines, styled, n, lines.len());
    let h = p + trim(lines[n - 1]) + seq!['\n', '\n'];
    assert(h == page_text_upto(lines, styled, n));
    assert(heading_prefix(page_text_upto(lines, styled, lines.len()), p, trim(lines[n - 1])));
}

fn ends_with_newlines(out: &Vec<char>, k: usize) -> (r: bool)
    requires
        k == 1 || k == 2,
    ensures
        r == ends_with(out@, if k == 1 { seq!['\n'] } else { seq!['\n', '\n'] }),
{
    let n = out.len();
    if n < k {
        return false;
    }
    let r = if k == 1 {
        out[n - 1] == '\n'
    } else {
        out[n - 1] == '\n' && out[n - 2] == '\n'
    };
    proof {
        let t: Seq<char> = if k == 1 { seq!['\n'] } else { seq!['\n', '\n'] };
        let tail = out@.skip(n - k);
        if r {
            assert(tail =~= t);
        } else {
            if tail == t {
                assert(tail[k - 1] == out@[n - 1]);
                if k == 2 {
                    assert(tail[0] == out@[n - 2]);
                }
            }
        }
    }
    r
}

fn push_paragraph_break(out: &mut Vec<char>)
    ensures
        final(out)@ == paragraph_break(old(out)@),
{
    if !ends_with_newlines(out, 2) {
        if !ends_with_newlines(out, 1) {
            out.push('\n');
        }
        out.push('\n');
    }
}

/// Builds a page's text from its visual lines and which of them are styled
/// headings (larger or mostly bold type).
pub fn assemble_page_text(lines: &[String], styled: &[bool]) -> (r: String)
    requires
        styled@.len() == lines@.len(),
    ensures
        r@ == page_text_upto(lines@.map_values(|l: String| l@), styled@, lines@.len()),
{
    let ghost ls = lines@.map_values(|l: String| l@);
    let mut out: Vec<char> = Vec::new();
    let mut i: usize = 0;
    while i < lines.len()
        invariant
            styled@.len() == lines@.len(),
            i <= lines@.len(),
            ls == lines@.map_values(|l: String| l@),
            out@ == page_text_upto(ls, styled@, i as nat),
        decreases lines@.len() - i,
    {
        let lc = chars_of(lines[i].as_str());
        assert(ls[i as int] == lc@);
        if is_blank(&lc) {
            push_paragraph_break(&mut out);
        } else if styled[i] {
            if out.len() > 0 {
                push_paragraph_break(&mut out);
            }
            let t = trim_chars(&lc);
            extend_chars(&mut out, &t);
            out.push('\n');
            out.push('\n');
            assert(out@ =~= page_text_upto(ls, styled@, (i + 1) as nat));
        } else {
            extend_chars(&mut out, &lc);
            out.push('\n');
            assert(out@ =~= page_text_upto(ls, styled@, (i + 1) as nat));
        }
        i += 1;
    }
    string_of(&out)
}

/// A document from the texts of its pages, numbered from one; the full
/// text joins the pages as the ingestion does.
pub fn document_from_pages(texts: Vec<String>) -> (r: ExtractedDoc)
    ensures
        r.pages@.len() == texts@.len(),
        forall|k: int| 0 <= k < r.pages@.len() ==> (#[trigger] r.pages@[k]).page_num == k + 1 && r.pages@[k].text
            == texts@[k],
        r.text@ == joined_pages(texts@.map_values(|t: String| t@)),
        r.page_count == texts@.len(),
{
    let ghost ts = texts@.map_values(|t: String| t@);
    let mut pages: Vec<PageContent> = Vec::new();
    let mut full: Vec<char> = Vec::new();
    let mut i: usize = 0;
    while i < texts.len()
        invariant
            i <= texts@.len(),
            ts == texts@.map_values(|t: String| t@),
            pages@.len() == i,
            forall|k: int| 0 <= k < i ==> (#[trigger] pages@[k]).page_num == k + 1 && pages@[k].text == texts@[k],
            full@ == joined_pages(ts.take(i as int)),
        decreases texts@.len() - i,
    {
        let text = texts[i].clone();
        let tc = chars_of(text.as_str());
        proof {
            assert(ts.take(i + 1).drop_last() =~= ts.take(i as int));
            assert(ts.take(i + 1).last() == text@);
        }
        if i > 0 && tc.len() > 0 && full.len() > 0 {
            full.push('\n');
        }
        extend_chars(&mut full, &tc);
        pages.push(PageContent { page_num: i + 1, text });
        i += 1;
    }
    assert(ts.take(i as int) =~= ts);
    let n = pages.len();
    ExtractedDoc { page_count: n, text: string_of(&full), pages }
}

} // verus!
