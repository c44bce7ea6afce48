//! Ingestion of a source document: repairing the extracted text page by
//! page, cutting it into chunks, and the counts and labels of the progress
//! reports.
use vstd::prelude::*;
use crate::chunker::types::{Chunk, ExtractedDoc, PageContent};
use crate::chunker::window::{chunk_document, document_chunks, pages_len};
use crate::decimal::{int_decimal, push_usize_decimal};
use crate::text::{chars_of, extend_str, string_of};
use crate::text_normalizer::{normalize, normalized};

verus! {

/// Failures of ingestion.
#[derive(Debug)]
pub enum IngestionError {
    Io(String),
    PdfExtraction(String),
    Embedding(String),
    Db(String),
    Store(String),
}

// ── Normalising an extracted document ──────────────────────────────────────

/// The full text of pages `texts`: concatenated, with a newline before a
/// non-empty page when text precedes it.
pub open spec fn joined_pages(texts: Seq<Seq<char>>) -> Seq<char>
    decreases texts.len(),
{
    if texts.len() == 0 {
        Seq::empty()
    } else {
        let prev = joined_pages(texts.drop_last());
        let t = texts.last();
        if texts.len() > 1 && t.len() > 0 && prev.len() > 0 {
            prev + seq!['\n'] + t
        } else {
            prev + t
        }
    }
}

/// The normalised texts of the pages.
pub open spec fn normalized_pages(pages: Seq<PageContent>) -> Seq<Seq<char>> {
    pages.map_values(|p: PageContent| normalized(p.text@))
}

/// Repairs every page of an extracted document and rebuilds its full text
/// from the repaired pages; the page numbers stay, and the page count becomes
/// the number of pages.
pub fn normalize_extracted(doc: &ExtractedDoc) -> (r: ExtractedDoc)
    ensures
        r.pages@.len() == doc.pages@.len(),
        forall|k: int| 0 <= k < r.pages@.len() ==> (#[trigger] r.pages@[k]).page_num == doc.pages@[k].page_num
            && r.pages@[k].text@ == normalized(doc.pages@[k].text@),
        r.text@ == joined_pages(normalized_pages(doc.pages@)),
        r.page_count == r.pages@.len(),
{
    let ghost ts = normalized_pages(doc.pages@);
    let mut pages: Vec<PageContent> = Vec::new();
    let mut full: Vec<char> = Vec::new();
    let mut i: usize = 0;
    while i < doc.pages.len()
        invariant
            i <= doc.pages@.len(),
            ts == normalized_pages(doc.pages@),
            pages@.len() == i,
            forall|k: int| 0 <= k < i ==> (#[trigger] pages@[k]).page_num == doc.pages@[k].page_num
                && pages@[k].text@ == normalized(doc.pages@[k].text@),
            full@ == joined_pages(ts.take(i as int)),
        decreases doc.pages@.len() - i,
    {
        let text = normalize(doc.pages[i].text.as_str());
        let tc = chars_of(text.as_str());
        proof {
            assert(ts.take(i + 1).drop_last() =~= ts.take(i as int));
            assert(ts.take(i + 1).last() == text@);
        }
        if i > 0 && tc.len() > 0 && full.len() > 0 {
            full.push('\n');
        }
        crate::text::extend_chars(&mut full, &tc);
        pages.push(PageContent { page_num: doc.pages[i].page_num, text });
        i += 1;
    }
    assert(ts.take(i as int) =~= ts);
    let n = pages.len();
    ExtractedDoc { page_count: n, text: string_of(&full), pages }
}

// ── Chunks ─────────────────────────────────────────────────────────────────

/// A chunk ready to be embedded.
#[derive(Debug, Clone)]
pub struct RawChunk {
    pub text: String,
    pub page_start: i64,
    pub page_end: i64,
    pub section_heading: String,
}

/// The chunks of a document, each as text, page range and heading.
pub fn chunk_text(doc: &ExtractedDoc, _source_id: &str) -> (r: Result<Vec<RawChunk>, IngestionError>)
    requires
        doc.text@.len() <= isize::MAX,
        pages_len(doc.pages@) <= usize::MAX,
    ensures
        r matches Ok(v) && v@.len() == document_chunks(*doc).len() && forall|k: int| 0 <= k < v@.len() ==> {
            &&& (#[trigger] v@[k]).text@ == document_chunks(*doc)[k].text
            &&& v@[k].page_start == document_chunks(*doc)[k].page_start
            &&& v@[k].page_end == document_chunks(*doc)[k].page_end
            &&& v@[k].section_heading@ == document_chunks(*doc)[k].section_heading
        },
{
    let chunks = chunk_document(doc);
    let ghost cs = chunks@;
    let mut out: Vec<RawChunk> = Vec::new();
    let mut i: usize = 0;
    while i < chunks.len()
        invariant
            i <= chunks@.len(),
            cs == chunks@,
            cs.map_values(|c: Chunk| c.spec()) == document_chunks(*doc),
            out@.len() == i,
            forall|k: int| 0 <= k < i ==> {
                &&& (#[trigger] out@[k]).text@ == cs[k].text@
                &&& out@[k].page_start == cs[k].page_start
                &&& out@[k].page_end == cs[k].page_end
                &&& out@[k].section_heading@ == cs[k].section_heading@
            },
        decreases chunks@.len() - i,
    {
        let c = &chunks[i];
        out.push(
            RawChunk {
                text: c.text.clone(),
                page_start: c.page_start,
                page_end: c.page_end,
                section_heading: c.section_heading.clone(),
            },
        );
        i += 1;
    }
    assert forall|k: int| 0 <= k < out@.len() implies {
        &&& (#[trigger] out@[k]).text@ == document_chunks(*doc)[k].text
        &&& out@[k].page_start == document_chunks(*doc)[k].page_start
        &&& out@[k].page_end == document_chunks(*doc)[k].page_end
        &&& out@[k].section_heading@ == document_chunks(*doc)[k].section_heading
    } by {
        assert(cs.map_values(|c: Chunk| c.spec())[k] == cs[k].spec());
    }
    Ok(out)
}

// ── Embedding batches ──────────────────────────────────────────────────────

/// Chunks embedded per call.
pub const EMBED_BATCH_SIZE: usize = 32;

/// The running counts reported after each embedding batch of `total`
/// chunks: multiples of the batch size, the last one `total`.
pub open spec fn batch_ends(total: nat) -> Seq<nat>
    decreases total,
{
    if total == 0 {
        Seq::empty()
    } else if total <= EMBED_BATCH_SIZE {
        seq![total]
    } else {
        seq![EMBED_BATCH_SIZE as nat] + batch_ends((total - EMBED_BATCH_SIZE) as nat).map_values(
            |e: nat| (e + EMBED_BATCH_SIZE) as nat,
        )
    }
}

/// The counts of embedded chunks after each batch.
pub fn embed_batch_ends(total: usize) -> (r: Vec<usize>)
    ensures
        r@.len() == batch_ends(total as nat).len(),
        forall|k: int| 0 <= k < r@.len() ==> r@[k] as nat == #[trigger] batch_ends(total as nat)[k],
    decreases total,
{
    if total == 0 {
        return Vec::new();
    }
    if total <= EMBED_BATCH_SIZE {
        return vec![total];
    }
    let rest = embed_batch_ends(total - EMBED_BATCH_SIZE);
    let mut out: Vec<usize> = vec![EMBED_BATCH_SIZE];
    let mut i: usize = 0;
    let ghost tail = batch_ends((total - EMBED_BATCH_SIZE) as nat).map_values(|e: nat| (e + EMBED_BATCH_SIZE) as nat);
    proof {
        lemma_batch_ends_bounded((total - EMBED_BATCH_SIZE) as nat);
    }
    while i < rest.len()
        invariant
            i <= rest@.len(),
            rest@.len() == batch_ends((total - EMBED_BATCH_SIZE) as nat).len(),
            forall|k: int| 0 <= k < rest@.len() ==> rest@[k] as nat == #[trigger] batch_ends((total - EMBED_BATCH_SIZE) as nat)[k],
            forall|k: int| 0 <= k < rest@.len() ==> #[trigger] batch_ends((total - EMBED_BATCH_SIZE) as nat)[k] <= total - EMBED_BATCH_SIZE,
            tail == batch_ends((total - EMBED_BATCH_SIZE) as nat).map_values(|e: nat| (e + EMBED_BATCH_SIZE) as nat),
            total > EMBED_BATCH_SIZE,
            out@.len() == i + 1,
            out@[0] == EMBED_BATCH_SIZE,
            forall|k: int| 0 <= k < i ==> out@[k + 1] as nat == #[trigger] tail[k],
        decreases rest@.len() - i,
    {
        assert(rest@[i as int] as nat == batch_ends((total - EMBED_BATCH_SIZE) as nat)[i as int]);
        assert(rest@[i as int] <= total - EMBED_BATCH_SIZE);
        out.push(rest[i] + EMBED_BATCH_SIZE);
        i += 1;
    }
    proof {
        let b = batch_ends(total as nat);
        assert(b =~= seq![EMBED_BATCH_SIZE as nat] + tail);
        assert forall|k: int| 0 <= k < out@.len() implies out@[k] as nat == #[trigger] batch_ends(total as nat)[k] by {
            if k > 0 {
                assert(b[k] == tail[k - 1]);
            }
        }
    }
    out
}

proof fn lemma_batch_ends_bounded(total: nat)
    ensures
        forall|k: int| 0 <= k < batch_ends(total).len() ==> #[trigger] batch_ends(total)[k] <= total,
    decreases total,
{
    if total > EMBED_BATCH_SIZE {
        let r = (total - EMBED_BATCH_SIZE) as nat;
        lemma_batch_ends_bounded(r);
        let tail = batch_ends(r).map_values(|e: nat| (e + EMBED_BATCH_SIZE) as nat);
        let b = batch_ends(total);
        assert(b =~= seq![EMBED_BATCH_SIZE as nat] + tail);
        assert forall|k: int| 0 <= k < b.len() implies #[trigger] b[k] <= total by {
            if k > 0 {
                assert(b[k] == tail[k - 1]);
                assert(batch_ends(r)[k - 1] <= r);
            }
        }
    }
}

// ── Progress labels ────────────────────────────────────────────────────────

/// `prefix` + `a` + `/` + `b`.
pub open spec fn count_label(prefix: Seq<char>, a: nat, b: nat) -> Seq<char> {
    prefix + int_decimal(a as int) + seq!['/'] + int_decimal(b as int)
}

/// The label of the page-extraction progress.
pub fn page_step(page: usize, total: usize) -> (r: String)
    ensures
        r@ == count_label("Extracting text from page "@, page as nat, total as nat),
{
    let mut d: Vec<char> = Vec::new();
    extend_str(&mut d, "Extracting text from page ");
    push_usize_decimal(&mut d, page);
    d.push('/');
    push_usize_decimal(&mut d, total);
    string_of(&d)
}

/// The label of the embedding progress.
pub fn embed_step(done: usize, total: usize) -> (r: String)
    ensures
        r@ == count_label("Embedding chunks "@, done as nat, total as nat),
{
    let mut d: Vec<char> = Vec::new();
    extend_str(&mut d, "Embedding chunks ");
    push_usize_decimal(&mut d, done);
    d.push('/');
    push_usize_decimal(&mut d, total);
    string_of(&d)
}

/// The label announcing how many pages are split into chunks.
pub fn splitting_step(pages: usize) -> (r: String)
    ensures
        r@ == "Splitting "@ + int_decimal(pages as int) + " pages into searchable chunks"@,
{
    let mut d: Vec<char> = Vec::new();
    extend_str(&mut d, "Splitting ");
    push_usize_decimal(&mut d, pages);
    extend_str(&mut d, " pages into searchable chunks");
    string_of(&d)
}

/// The label announcing how many chunks came out.
pub fn split_step(chunks: usize) -> (r: String)
    ensures
        r@ == "Split into "@ + int_decimal(chunks as int) + " chunks"@,
{
    let mut d: Vec<char> = Vec::new();
    extend_str(&mut d, "Split into ");
    push_usize_decimal(&mut d, chunks);
    extend_str(&mut d, " chunks");
    string_of(&d)
}

/// The label announcing the database write.
pub fn writing_step(chunks: usize) -> (r: String)
    ensures
        r@ == "Writing "@ + int_decimal(chunks as int) + " chunks to database"@,
{
    let mut d: Vec<char> = Vec::new();
    extend_str(&mut d, "Writing ");
    push_usize_decimal(&mut d, chunks);
    extend_str(&mut d, " chunks to database");
    string_of(&d)
}

} // verus!
