//! Prompt assembly for the game-master assistant: note excerpts, the
//! block of retrieved passages, and the system prompt.
use vstd::prelude::*;
use crate::decimal::{int_decimal, push_i64_decimal, push_usize_decimal};
use crate::text::{contains_seq, occurs_at, chars_of, extend_chars, extend_str, is_blank, join, join_chars, slice_chars, split_words, string_of, trim, words};

verus! {

// ── Errors ─────────────────────────────────────────────────────────────────

/// Failures of the assistant pipeline.
#[derive(Debug)]
pub enum AgentError {
    Embedding(String),
    Retrieval(String),
    Llm(String),
    Db(String),
}

// ── Note excerpts ──────────────────────────────────────────────────────────

/// Most characters of a note that enter the context block.
pub const NOTES_EXCERPT_LEN: usize = 280;

/// A note as one line: its words joined by single spaces, cut to
/// `NOTES_EXCERPT_LEN` characters plus an ellipsis when longer; `None` for an
/// absent or blank note.
pub open spec fn notes_excerpt_spec(notes: Option<Seq<char>>) -> Option<Seq<char>> {
    match notes {
        None => None,
        Some(s) => if trim(s).len() == 0 {
            None
        } else {
            let c = join(words(s), seq![' ']);
            if c.len() <= NOTES_EXCERPT_LEN {
                Some(c)
            } else {
                Some(c.take(NOTES_EXCERPT_LEN as int).push('\u{2026}'))
            }
        },
    }
}

/// The view of an optional string.
pub open spec fn opt_view(o: Option<&str>) -> Option<Seq<char>> {
    match o {
        Some(s) => Some(s@),
        None => None,
    }
}

/// The view of an optional owned string.
pub open spec fn opt_string_view(o: Option<String>) -> Option<Seq<char>> {
    match o {
        Some(s) => Some(s@),
        None => None,
    }
}

/// Formats a note as a single-line excerpt for the context block.
pub fn notes_excerpt(notes: Option<&str>) -> (r: Option<String>)
    ensures
        opt_string_view(r) == notes_excerpt_spec(opt_view(notes)),
{
    match notes {
        None => None,
        Some(n) => {
            let nc = chars_of(n);
            if is_blank(&nc) {
                return None;
            }
            let ws = split_words(&nc);
            let sep = vec![' '];
            assert(sep@ =~= seq![' ']);
            let c = join_chars(&ws, &sep);
            if c.len() <= NOTES_EXCERPT_LEN {
                Some(string_of(&c))
            } else {
                let mut t = slice_chars(&c, 0, NOTES_EXCERPT_LEN);
                t.push('\u{2026}');
                assert(t@ =~= c@.take(NOTES_EXCERPT_LEN as int).push('\u{2026}'));
                Some(string_of(&t))
            }
        },
    }
}

/// A note excerpt is never longer than the budget plus the ellipsis, and
/// a note that fits is kept whole.
pub proof fn lemma_notes_excerpt_bounded(notes: Option<Seq<char>>)
    ensures
        notes_excerpt_spec(notes) matches Some(e) ==> e.len() <= NOTES_EXCERPT_LEN + 1,
        notes matches Some(s) ==> (trim(s).len() > 0 && join(words(s), seq![' ']).len() <= NOTES_EXCERPT_LEN
            ==> notes_excerpt_spec(notes) == Some(join(words(s), seq![' ']))),
{
}

/// Testing a note for blankness with `trim` is testing that its words,
/// joined by single spaces, are empty: the note has no words.
pub proof fn lemma_notes_blank_iff_no_words(s: Seq<char>)
    ensures
        trim(s).len() == 0 <==> join(words(s), seq![' ']).len() == 0,
        trim(s).len() == 0 <==> words(s).len() == 0,
{
    crate::text::lemma_blank_iff_no_words(s);
    crate::text::lemma_words_shape(s);
    crate::text::lemma_join_empty(words(s), seq![' ']);
}

// ── Retrieved passages ─────────────────────────────────────────────────────

/// A passage returned by the vector store.
#[derive(Debug, Clone)]
pub struct SearchResult {
    pub chunk_id: String,
    pub source_id: String,
    pub source_name: String,
    pub text: String,
    pub page_start: i64,
    pub page_end: i64,
    pub section_heading: String,
    pub source_type: String,
    pub is_gm_only: bool,
}

/// Heading of the block of retrieved passages.
pub const CONTEXT_HEAD: &'static str = "Relevant source material:\n\n";

/// The name a passage is cited by: its source name, or the source id when
/// the name is empty.
pub open spec fn cited_source(r: SearchResult) -> Seq<char> {
    if r.source_name@.len() == 0 {
        r.source_id@
    } else {
        r.source_name@
    }
}

/// One passage of the block: index, source, page range, heading, text.
pub open spec fn context_entry(i: int, r: SearchResult) -> Seq<char> {
    seq!['['] + int_decimal(i) + "] Source: \""@ + cited_source(r) + "\", p. "@ + int_decimal(
        r.page_start as int,
    ) + seq!['-'] + int_decimal(r.page_end as int) + " \u{2014} \""@ + r.section_heading@ + "\"\n"@
        + r.text@ + "\n\n"@
}

/// The entries of the first `n` passages.
pub open spec fn context_entries(rs: Seq<SearchResult>, n: nat) -> Seq<char>
    decreases n,
{
    if n == 0 {
        Seq::empty()
    } else {
        context_entries(rs, (n - 1) as nat) + context_entry(n - 1, rs[n - 1])
    }
}

/// The block of retrieved passages; empty when nothing was retrieved.
pub open spec fn context_spec(rs: Seq<SearchResult>) -> Seq<char> {
    if rs.len() == 0 {
        Seq::empty()
    } else {
        CONTEXT_HEAD@ + context_entries(rs, rs.len())
    }
}

/// Builds the context block from search results.
pub fn build_context(results: &[SearchResult]) -> (r: String)
    ensures
        r@ == context_spec(results@),
{
    if results.len() == 0 {
        return String::new();
    }
    let mut out: Vec<char> = Vec::new();
    extend_str(&mut out, CONTEXT_HEAD);
    let mut i: usize = 0;
    while i < results.len()
        invariant
            i <= results@.len(),
            out@ == CONTEXT_HEAD@ + context_entries(results@, i as nat),
        decreases results@.len() - i,
    {
        let r = &results[i];
        let ghost before = out@;
        out.push('[');
        push_usize_decimal(&mut out, i);
        extend_str(&mut out, "] Source: \"");
        if r.source_name.as_str().is_empty() {
            extend_str(&mut out, r.source_id.as_str());
        } else {
            extend_str(&mut out, r.source_name.as_str());
        }
        extend_str(&mut out, "\", p. ");
        push_i64_decimal(&mut out, r.page_start);
        out.push('-');
        push_i64_decimal(&mut out, r.page_end);
        extend_str(&mut out, " \u{2014} \"");
        extend_str(&mut out, r.section_heading.as_str());
        extend_str(&mut out, "\"\n");
        extend_str(&mut out, r.text.as_str());
        extend_str(&mut out, "\n\n");
        proof {
            assert(out@ =~= before + context_entry(i as int, results@[i as int]));
        }
        i += 1;
    }
    string_of(&out)
}

/// True when some retrieved passage is for the game master only.
pub fn any_gm_only(results: &[SearchResult]) -> (r: bool)
    ensures
        r == exists|k: int| 0 <= k < results@.len() && (#[trigger] results@[k]).is_gm_only,
{
    let mut i: usize = 0;
    while i < results.len()
        invariant
            i <= results@.len(),
            forall|k: int| 0 <= k < i ==> !(#[trigger] results@[k]).is_gm_only,
        decreases results@.len() - i,
    {
        if results[i].is_gm_only {
            return true;
        }
        i += 1;
    }
    false
}

// ── System prompt ──────────────────────────────────────────────────────────

/// The whole prompt when there is neither reference material nor campaign notes.
pub const PROMPT_FALLBACK: &'static str = "You are an expert Game Master assistant. \
            Answer the user's question to the best of your ability. \
            If you don't know the answer, say so — do not make up rules.";

/// Opening line of a prompt with context.
pub const PROMPT_HEAD: &'static str = "You are an expert Game Master assistant.\n\n";

/// Heading of the instruction list.
pub const PROMPT_INSTRUCTIONS: &'static str = "INSTRUCTIONS:\n";

/// First instruction, always present.
pub const PROMPT_READ_ALL: &'static str = "- Read every passage and note above carefully BEFORE answering.\n";

/// Entity-scope and enumeration rules, present with reference material.
pub const PROMPT_SCOPE: &'static str = "- Entity scope is critical. A passage is valid evidence ONLY when it \
             explicitly attributes a fact to the SAME entity the question is about. \
             A passage that lists the target entity alongside OTHER entities \
             (e.g. \"X dominates Vethara, Korim, Suthen and Marrowen\", or \
             \"in Vethara and in Korim\") does NOT attribute everything in the \
             list to the target — those are SEPARATE entities. Wording can vary \
             (synonyms and paraphrases are fine when they refer to the same entity, \
             e.g. \"factions\" ≈ \"groups\"), but a fact about a different but \
             co-mentioned entity is NOT evidence for the target.\n\
             - For list / enumeration questions (\"which are the...\", \"what are the...\", \
             \"list...\"), enumerate EVERY item the passages explicitly attribute to \
             the target entity. Do not compress to fit a sentence budget. If the \
             passages only cover some items, list those and acknowledge that the \
             reference material may be incomplete.\n";

/// Length rule, always present.
pub const PROMPT_CONCISE: &'static str = "- For other questions, answer in 1–3 sentences. Be concise — the GM is \
         running a table.\n";

/// No verbatim quoting in the answer, present with reference material.
pub const PROMPT_NO_VERBATIM: &'static str = "- Do NOT quote the passages verbatim in your answer text — the supporting \
             quote belongs INSIDE the citation marker.\n";

/// Source citation format, present with reference material.
pub const PROMPT_CITE_SOURCE: &'static str = "- Every factual claim from REFERENCE MATERIAL must cite its source using \
             this exact format, including a short verbatim quote (1 sentence) from the \
             passage that supports the claim:\n  \
               [Source: \"<source name>\", p.<page>, quote: \"<verbatim sentence>\"]\n  \
             Use the singular key `quote:` with exactly ONE sentence — never \
             `quotes:` or multiple excerpts. Emit a separate marker per source.\n  \
             Example: [Source: \"PHB\", p.72, quote: \"A fighter can use Action Surge once per rest.\"]\n  \
             The UI hides the quote from the visible reply and shows it in a popover \
             when the user clicks the citation badge.\n\
             - Only say \"the reference material does not contain this information\" if you \
             have scanned every passage and found no relevant content (paraphrase counts \
             only for the same entity).\n";

/// Entity citation format, present with campaign notes.
pub const PROMPT_CITE_ENTITY: &'static str = "- Every factual claim from CAMPAIGN NOTES must cite the entity using \
             this exact format:\n  \
               [Entity: \"<entity name>\", kind: \"<kind>\"]\n  \
             where kind is the bracketed prefix in the campaign note line \
             (e.g. player_character, npc, location, faction, creature, item, event, misc).\n  \
             Example: [Entity: \"Nazirdijan\", kind: \"player_character\"]\n  \
             No verbatim quote is needed — entity records are the GM's own data.\n\
             - Entity names in CAMPAIGN NOTES are exact — use them verbatim in citations.\n";

/// `part` when `cond`, else nothing.
pub open spec fn when(cond: bool, part: Seq<char>) -> Seq<char> {
    if cond {
        part
    } else {
        Seq::empty()
    }
}

/// The system prompt for reference material `rag` and campaign notes `ent`:
/// the fallback when both are empty, else the sections that are present and
/// the instructions that apply to them.
pub open spec fn system_prompt_spec(rag: Seq<char>, ent: Seq<char>) -> Seq<char> {
    let has_rag = rag.len() > 0;
    let has_ent = ent.len() > 0;
    if !has_rag && !has_ent {
        PROMPT_FALLBACK@
    } else {
        PROMPT_HEAD@
            + when(has_rag, "REFERENCE MATERIAL:\n"@ + rag + seq!['\n'])
            + when(has_ent, "CAMPAIGN NOTES (GM's own records):\n"@ + ent + seq!['\n'])
            + PROMPT_INSTRUCTIONS@ + PROMPT_READ_ALL@
            + when(has_rag, PROMPT_SCOPE@)
            + PROMPT_CONCISE@
            + when(has_rag, PROMPT_NO_VERBATIM@ + PROMPT_CITE_SOURCE@)
            + when(has_ent, PROMPT_CITE_ENTITY@)
    }
}

/// Which sections the system prompt holds: with neither passages nor notes
/// it is the fallback prompt; otherwise the passages appear under their
/// heading when there are any, and the notes under theirs when there are
/// any.
pub proof fn lemma_system_prompt_sections(rag: Seq<char>, ent: Seq<char>)
    ensures
        rag.len() == 0 && ent.len() == 0 ==> system_prompt_spec(rag, ent) == PROMPT_FALLBACK@,
        rag.len() > 0 ==> crate::text::contains_seq(system_prompt_spec(rag, ent), "REFERENCE MATERIAL:\n"@ + rag),
        ent.len() > 0 ==> crate::text::contains_seq(system_prompt_spec(rag, ent), "CAMPAIGN NOTES (GM's own records):\n"@ + ent),
{
    let has_rag = rag.len() > 0;
    let has_ent = ent.len() > 0;
    if has_rag || has_ent {
        let r = system_prompt_spec(rag, ent);
        let h = PROMPT_HEAD@;
        let a = when(has_rag, "REFERENCE MATERIAL:\n"@ + rag + seq!['\n']);
        let b = when(has_ent, "CAMPAIGN NOTES (GM's own records):\n"@ + ent + seq!['\n']);
        let tail = PROMPT_INSTRUCTIONS@ + PROMPT_READ_ALL@ + when(has_rag, PROMPT_SCOPE@) + PROMPT_CONCISE@ + when(
            has_rag,
            PROMPT_NO_VERBATIM@ + PROMPT_CITE_SOURCE@,
        ) + when(has_ent, PROMPT_CITE_ENTITY@);
        assert(r =~= h + a + b + tail);
        if has_rag {
            let n = "REFERENCE MATERIAL:\n"@ + rag;
            assert(r.subrange(h.len() as int, (h.len() + n.len()) as int) =~= n);
            assert(crate::text::occurs_at(r, n, h.len() as int));
        }
        if has_ent {
            let n = "CAMPAIGN NOTES (GM's own records):\n"@ + ent;
            let at = (h.len() + a.len()) as int;
            assert(r.subrange(at, at + n.len()) =~= n);
            assert(crate::text::occurs_at(r, n, at));
        }
    }
}

// ── Section markers of the system prompt ───────────────────────────────────

/// `s` ends a line.
pub open spec fn ends_in_newline(s: Seq<char>) -> bool {
    s.len() > 0 && s.last() == '\n'
}

/// `s` has no line break.
pub open spec fn single_line(s: Seq<char>) -> bool {
    forall|k: int| 0 <= k < s.len() ==> s[k] != '\n'
}

/// `s` holds none of the texts that mark a section of the system prompt.
pub open spec fn marker_free(s: Seq<char>) -> bool {
    &&& !contains_seq(s, "REFERENCE MATERIAL"@)
    &&& !contains_seq(s, "[Source:"@)
    &&& !contains_seq(s, "Entity scope is critical"@)
    &&& !contains_seq(s, "CAMPAIGN NOTES"@)
    &&& !contains_seq(s, "[Entity:"@)
}

/// A text lacking some character of `n` holds no `n`.
proof fn lemma_free_by_char(h: Seq<char>, n: Seq<char>, k: int)
    requires
        0 <= k < n.len(),
        forall|j: int| 0 <= j < h.len() ==> h[j] != n[k],
    ensures
        !contains_seq(h, n),
{
    assert forall|p: int| !occurs_at(h, n, p) by {
        if occurs_at(h, n, p) {
            assert(h.subrange(p, p + n.len())[k] == h[p + k]);
        }
    }
}

/// A text in which two adjacent characters of `n` never follow each other
/// holds no `n`.
proof fn lemma_free_by_pair(h: Seq<char>, n: Seq<char>, k: int)
    requires
        0 <= k,
        k + 1 < n.len(),
        forall|j: int| #![trigger h[j]] 0 <= j && j + 1 < h.len() ==> !(h[j] == n[k] && h[j + 1] == n[k + 1]),
    ensures
        !contains_seq(h, n),
{
    assert forall|p: int| !occurs_at(h, n, p) by {
        if occurs_at(h, n, p) {
            assert(h.subrange(p, p + n.len())[k] == h[p + k]);
            assert(h.subrange(p, p + n.len())[k + 1] == h[p + k + 1]);
        }
    }
}

/// A text that occurs in `b` occurs in `a + b + c`.
proof fn lemma_occurs_within(a: Seq<char>, b: Seq<char>, c: Seq<char>, n: Seq<char>, i: int)
    requires
        occurs_at(b, n, i),
    ensures
        occurs_at(a + b + c, n, a.len() + i),
{
    assert((a + b + c).subrange(a.len() + i, a.len() + i + n.len()) =~= b.subrange(i, i + n.len()));
}

/// Joining two texts that hold no `n` at a line break gives none either.
proof fn lemma_free_concat(a: Seq<char>, b: Seq<char>, n: Seq<char>)
    requires
        !contains_seq(a, n),
        !contains_seq(b, n),
        single_line(n),
        a.len() == 0 || a.last() == '\n' || (b.len() > 0 && b[0] == '\n'),
    ensures
        !contains_seq(a + b, n),
{
    let s = a + b;
    assert forall|p: int| !occurs_at(s, n, p) by {
        if occurs_at(s, n, p) {
            if p + n.len() <= a.len() {
                assert(s.subrange(p, p + n.len()) =~= a.subrange(p, p + n.len()));
                assert(occurs_at(a, n, p));
            } else if p >= a.len() {
                assert(s.subrange(p, p + n.len()) =~= b.subrange(p - a.len(), p - a.len() + n.len()));
                assert(occurs_at(b, n, p - a.len()));
            } else if a.len() > 0 && a.last() == '\n' {
                assert(s.subrange(p, p + n.len())[a.len() - 1 - p] == s[a.len() - 1]);
            } else {
                assert(s.subrange(p, p + n.len())[a.len() - p] == s[a.len() as int]);
            }
        }
    }
}

/// A block that holds no `n`, added after text that ends a line, keeps the
/// whole free of `n`.
proof fn lemma_free_chain(acc: Seq<char>, part: Seq<char>, n: Seq<char>)
    requires
        !contains_seq(acc, n),
        !contains_seq(part, n),
        single_line(n),
        ends_in_newline(acc),
        part.len() == 0 || ends_in_newline(part),
    ensures
        !contains_seq(acc + part, n),
        ends_in_newline(acc + part),
{
    lemma_free_concat(acc, part, n);
}

/// A section `heading + body + "\n"` holds no `n` when neither heading nor
/// body does, and it ends a line.
proof fn lemma_section_free(heading: Seq<char>, body: Seq<char>, n: Seq<char>)
    requires
        !contains_seq(heading, n),
        !contains_seq(body, n),
        single_line(n),
        n.len() > 0,
        ends_in_newline(heading),
    ensures
        !contains_seq(heading + body + seq!['\n'], n),
        ends_in_newline(heading + body + seq!['\n']),
{
    lemma_free_concat(heading, body, n);
    lemma_free_by_char(seq!['\n'], n, 0);
    lemma_free_concat(heading + body, seq!['\n'], n);
}

/// The fallback prompt holds no section marker.
proof fn lemma_fallback_free()
    ensures
        !contains_seq(PROMPT_FALLBACK@, "REFERENCE MATERIAL"@),
        !contains_seq(PROMPT_FALLBACK@, "[Source:"@),
        !contains_seq(PROMPT_FALLBACK@, "Entity scope is critical"@),
        !contains_seq(PROMPT_FALLBACK@, "CAMPAIGN NOTES"@),
        !contains_seq(PROMPT_FALLBACK@, "[Entity:"@),
        occurs_at(PROMPT_FALLBACK@, "Game Master assistant"@, 18),
{
    reveal_strlit("Game Master assistant");
    reveal_strlit("You are an expert Game Master assistant. \
            Answer the user's question to the best of your ability. \
            If you don't know the answer, say so — do not make up rules.");
    reveal_strlit("REFERENCE MATERIAL");
    reveal_strlit("[Source:");
    reveal_strlit("Entity scope is critical");
    reveal_strlit("CAMPAIGN NOTES");
    reveal_strlit("[Entity:");
    lemma_free_by_char(PROMPT_FALLBACK@, "REFERENCE MATERIAL"@, 0);
    lemma_free_by_char(PROMPT_FALLBACK@, "[Source:"@, 0);
    lemma_free_by_char(PROMPT_FALLBACK@, "Entity scope is critical"@, 0);
    lemma_free_by_char(PROMPT_FALLBACK@, "CAMPAIGN NOTES"@, 0);
    lemma_free_by_char(PROMPT_FALLBACK@, "[Entity:"@, 0);
    assert(PROMPT_FALLBACK@.subrange(18, 18 + "Game Master assistant"@.len() as int) =~= "Game Master assistant"@);
}

/// The text of `PROMPT_HEAD` holds no section marker.
proof fn lemma_head_free()
    ensures
        !contains_seq(PROMPT_HEAD@, "REFERENCE MATERIAL"@),
        !contains_seq(PROMPT_HEAD@, "[Source:"@),
        !contains_seq(PROMPT_HEAD@, "Entity scope is critical"@),
        !contains_seq(PROMPT_HEAD@, "CAMPAIGN NOTES"@),
        !contains_seq(PROMPT_HEAD@, "[Entity:"@),
        ends_in_newline(PROMPT_HEAD@),
        occurs_at(PROMPT_HEAD@, "Game Master assistant"@, 18),
{
    reveal_strlit("Game Master assistant");
    reveal_strlit("You are an expert Game Master assistant.\n\n");
    reveal_strlit("REFERENCE MATERIAL");
    reveal_strlit("[Source:");
    reveal_strlit("Entity scope is critical");
    reveal_strlit("CAMPAIGN NOTES");
    reveal_strlit("[Entity:");
    lemma_free_by_char(PROMPT_HEAD@, "REFERENCE MATERIAL"@, 0);
    lemma_free_by_char(PROMPT_HEAD@, "[Source:"@, 0);
    lemma_free_by_char(PROMPT_HEAD@, "Entity scope is critical"@, 0);
    lemma_free_by_char(PROMPT_HEAD@, "CAMPAIGN NOTES"@, 0);
    lemma_free_by_char(PROMPT_HEAD@, "[Entity:"@, 0);
    assert(PROMPT_HEAD@.subrange(18, 18 + "Game Master assistant"@.len() as int) =~= "Game Master assistant"@);
}

/// The text of `PROMPT_INSTRUCTIONS` holds no section marker.
proof fn lemma_instructions_free()
    ensures
        !contains_seq(PROMPT_INSTRUCTIONS@, "REFERENCE MATERIAL"@),
        !contains_seq(PROMPT_INSTRUCTIONS@, "[Source:"@),
        !contains_seq(PROMPT_INSTRUCTIONS@, "Entity scope is critical"@),
        !contains_seq(PROMPT_INSTRUCTIONS@, "CAMPAIGN NOTES"@),
        !contains_seq(PROMPT_INSTRUCTIONS@, "[Entity:"@),
        ends_in_newline(PROMPT_INSTRUCTIONS@),
{
    reveal_strlit("INSTRUCTIONS:\n");
    reveal_strlit("REFERENCE MATERIAL");
    reveal_strlit("[Source:");
    reveal_strlit("Entity scope is critical");
    reveal_strlit("CAMPAIGN NOTES");
    reveal_strlit("[Entity:");
    lemma_free_by_char(PROMPT_INSTRUCTIONS@, "REFERENCE MATERIAL"@, 1);
    lemma_free_by_char(PROMPT_INSTRUCTIONS@, "[Source:"@, 0);
    lemma_free_by_char(PROMPT_INSTRUCTIONS@, "Entity scope is critical"@, 0);
    lemma_free_by_char(PROMPT_INSTRUCTIONS@, "CAMPAIGN NOTES"@, 1);
    lemma_free_by_char(PROMPT_INSTRUCTIONS@, "[Entity:"@, 0);
}


/// The text of `PROMPT_READ_ALL` holds no section marker.
proof fn lemma_read_all_free()
    ensures
        !contains_seq(PROMPT_READ_ALL@, "REFERENCE MATERIAL"@),
        !contains_seq(PROMPT_READ_ALL@, "[Source:"@),
        !contains_seq(PROMPT_READ_ALL@, "Entity scope is critical"@),
        !contains_seq(PROMPT_READ_ALL@, "CAMPAIGN NOTES"@),
        !contains_seq(PROMPT_READ_ALL@, "[Entity:"@),
        ends_in_newline(PROMPT_READ_ALL@),
{
    reveal_strlit("- Read every passage and note above carefully BEFORE answering.\n");
    reveal_strlit("REFERENCE MATERIAL");
    reveal_strlit("[Source:");
    reveal_strlit("Entity scope is critical");
    reveal_strlit("CAMPAIGN NOTES");
    reveal_strlit("[Entity:");
    lemma_free_by_char(PROMPT_READ_ALL@, "REFERENCE MATERIAL"@, 6);
    lemma_free_by_char(PROMPT_READ_ALL@, "[Source:"@, 0);
    lemma_free_by_pair(PROMPT_READ_ALL@, "Entity scope is critical"@, 0);
    lemma_free_by_char(PROMPT_READ_ALL@, "CAMPAIGN NOTES"@, 0);
    lemma_free_by_char(PROMPT_READ_ALL@, "[Entity:"@, 0);
}


/// The text of `PROMPT_CONCISE` holds no section marker.
proof fn lemma_concise_free()
    ensures
        !contains_seq(PROMPT_CONCISE@, "REFERENCE MATERIAL"@),
        !contains_seq(PROMPT_CONCISE@, "[Source:"@),
        !contains_seq(PROMPT_CONCISE@, "Entity scope is critical"@),
        !contains_seq(PROMPT_CONCISE@, "CAMPAIGN NOTES"@),
        !contains_seq(PROMPT_CONCISE@, "[Entity:"@),
        ends_in_newline(PROMPT_CONCISE@),
{
    reveal_strlit("- For other questions, answer in 1–3 sentences. Be concise — the GM is \
         running a table.\n");
    reveal_strlit("REFERENCE MATERIAL");
    reveal_strlit("[Source:");
    reveal_strlit("Entity scope is critical");
    reveal_strlit("CAMPAIGN NOTES");
    reveal_strlit("[Entity:");
    lemma_free_by_char(PROMPT_CONCISE@, "REFERENCE MATERIAL"@, 0);
    lemma_free_by_char(PROMPT_CONCISE@, "[Source:"@, 0);
    lemma_free_by_char(PROMPT_CONCISE@, "Entity scope is critical"@, 0);
    lemma_free_by_char(PROMPT_CONCISE@, "CAMPAIGN NOTES"@, 0);
    lemma_free_by_char(PROMPT_CONCISE@, "[Entity:"@, 0);
}


/// The text of `PROMPT_SCOPE` holds no marker of campaign notes.
proof fn lemma_scope_free()
    ensures
        !contains_seq(PROMPT_SCOPE@, "CAMPAIGN NOTES"@),
        !contains_seq(PROMPT_SCOPE@, "[Entity:"@),
        ends_in_newline(PROMPT_SCOPE@),
        occurs_at(PROMPT_SCOPE@, "Entity scope is critical"@, 2),
{
    reveal_strlit("Entity scope is critical");
    reveal_strlit("- Entity scope is critical. A passage is valid evidence ONLY when it \
             explicitly attributes a fact to the SAME entity the question is about. \
             A passage that lists the target entity alongside OTHER entities \
             (e.g. \"X dominates Vethara, Korim, Suthen and Marrowen\", or \
             \"in Vethara and in Korim\") does NOT attribute everything in the \
             list to the target — those are SEPARATE entities. Wording can vary \
             (synonyms and paraphrases are fine when they refer to the same entity, \
             e.g. \"factions\" ≈ \"groups\"), but a fact about a different but \
             co-mentioned entity is NOT evidence for the target.\n\
             - For list / enumeration questions (\"which are the...\", \"what are the...\", \
             \"list...\"), enumerate EVERY item the passages explicitly attribute to \
             the target entity. Do not compress to fit a sentence budget. If the \
             passages only cover some items, list those and acknowledge that the \
             reference material may be incomplete.\n");
    reveal_strlit("CAMPAIGN NOTES");
    reveal_strlit("[Entity:");
    lemma_free_by_char(PROMPT_SCOPE@, "CAMPAIGN NOTES"@, 0);
    lemma_free_by_char(PROMPT_SCOPE@, "[Entity:"@, 0);
    assert(PROMPT_SCOPE@.subrange(2, 2 + "Entity scope is critical"@.len() as int) =~= "Entity scope is critical"@);
}

/// The text of `PROMPT_NO_VERBATIM` holds no marker of campaign notes.
proof fn lemma_no_verbatim_free()
    ensures
        !contains_seq(PROMPT_NO_VERBATIM@, "CAMPAIGN NOTES"@),
        !contains_seq(PROMPT_NO_VERBATIM@, "[Entity:"@),
        ends_in_newline(PROMPT_NO_VERBATIM@),
{
    reveal_strlit("- Do NOT quote the passages verbatim in your answer text — the supporting \
             quote belongs INSIDE the citation marker.\n");
    reveal_strlit("CAMPAIGN NOTES");
    reveal_strlit("[Entity:");
    lemma_free_by_char(PROMPT_NO_VERBATIM@, "CAMPAIGN NOTES"@, 0);
    lemma_free_by_char(PROMPT_NO_VERBATIM@, "[Entity:"@, 0);
}


/// The text of `PROMPT_CITE_SOURCE` holds no marker of campaign notes.
proof fn lemma_cite_source_free()
    ensures
        !contains_seq(PROMPT_CITE_SOURCE@, "CAMPAIGN NOTES"@),
        !contains_seq(PROMPT_CITE_SOURCE@, "[Entity:"@),
        ends_in_newline(PROMPT_CITE_SOURCE@),
        occurs_at(PROMPT_CITE_SOURCE@, "[Source:"@, 182),
{
    reveal_strlit("[Source:");
    reveal_strlit("- Every factual claim from REFERENCE MATERIAL must cite its source using \
             this exact format, including a short verbatim quote (1 sentence) from the \
             passage that supports the claim:\n  \
               [Source: \"<source name>\", p.<page>, quote: \"<verbatim sentence>\"]\n  \
             Use the singular key `quote:` with exactly ONE sentence — never \
             `quotes:` or multiple excerpts. Emit a separate marker per source.\n  \
             Example: [Source: \"PHB\", p.72, quote: \"A fighter can use Action Surge once per rest.\"]\n  \
             The UI hides the quote from the visible reply and shows it in a popover \
             when the user clicks the citation badge.\n\
             - Only say \"the reference material does not contain this information\" if you \
             have scanned every passage and found no relevant content (paraphrase counts \
             only for the same entity).\n");
    reveal_strlit("CAMPAIGN NOTES");
    reveal_strlit("[Entity:");
    lemma_free_by_char(PROMPT_CITE_SOURCE@, "CAMPAIGN NOTES"@, 6);
    lemma_free_by_pair(PROMPT_CITE_SOURCE@, "[Entity:"@, 0);
    assert(PROMPT_CITE_SOURCE@.subrange(182, 182 + "[Source:"@.len() as int) =~= "[Source:"@);
}

/// The text of `PROMPT_CITE_ENTITY` holds no marker of reference material.
proof fn lemma_cite_entity_free()
    ensures
        !contains_seq(PROMPT_CITE_ENTITY@, "REFERENCE MATERIAL"@),
        !contains_seq(PROMPT_CITE_ENTITY@, "[Source:"@),
        !contains_seq(PROMPT_CITE_ENTITY@, "Entity scope is critical"@),
        ends_in_newline(PROMPT_CITE_ENTITY@),
        occurs_at(PROMPT_CITE_ENTITY@, "[Entity:"@, 90),
{
    reveal_strlit("[Entity:");
    reveal_strlit("- Every factual claim from CAMPAIGN NOTES must cite the entity using \
             this exact format:\n  \
               [Entity: \"<entity name>\", kind: \"<kind>\"]\n  \
             where kind is the bracketed prefix in the campaign note line \
             (e.g. player_character, npc, location, faction, creature, item, event, misc).\n  \
             Example: [Entity: \"Nazirdijan\", kind: \"player_character\"]\n  \
             No verbatim quote is needed — entity records are the GM's own data.\n\
             - Entity names in CAMPAIGN NOTES are exact — use them verbatim in citations.\n");
    reveal_strlit("REFERENCE MATERIAL");
    reveal_strlit("[Source:");
    reveal_strlit("Entity scope is critical");
    lemma_free_by_char(PROMPT_CITE_ENTITY@, "REFERENCE MATERIAL"@, 0);
    lemma_free_by_pair(PROMPT_CITE_ENTITY@, "[Source:"@, 0);
    lemma_free_by_pair(PROMPT_CITE_ENTITY@, "Entity scope is critical"@, 6);
    assert(PROMPT_CITE_ENTITY@.subrange(90, 90 + "[Entity:"@.len() as int) =~= "[Entity:"@);
}

/// The heading of the reference material holds no marker of campaign notes.
proof fn lemma_rag_heading_free()
    ensures
        !contains_seq("REFERENCE MATERIAL:\n"@, "CAMPAIGN NOTES"@),
        !contains_seq("REFERENCE MATERIAL:\n"@, "[Entity:"@),
        ends_in_newline("REFERENCE MATERIAL:\n"@),
        occurs_at("REFERENCE MATERIAL:\n"@, "REFERENCE MATERIAL"@, 0),
{
    reveal_strlit("REFERENCE MATERIAL");
    reveal_strlit("REFERENCE MATERIAL:\n");
    reveal_strlit("CAMPAIGN NOTES");
    reveal_strlit("[Entity:");
    lemma_free_by_char("REFERENCE MATERIAL:\n"@, "CAMPAIGN NOTES"@, 3);
    lemma_free_by_char("REFERENCE MATERIAL:\n"@, "[Entity:"@, 0);
    assert("REFERENCE MATERIAL:\n"@.subrange(0, 0 + "REFERENCE MATERIAL"@.len() as int) =~= "REFERENCE MATERIAL"@);
}

/// The heading of the campaign notes holds no marker of reference material.
proof fn lemma_notes_heading_free()
    ensures
        !contains_seq("CAMPAIGN NOTES (GM's own records):\n"@, "REFERENCE MATERIAL"@),
        !contains_seq("CAMPAIGN NOTES (GM's own records):\n"@, "[Source:"@),
        !contains_seq("CAMPAIGN NOTES (GM's own records):\n"@, "Entity scope is critical"@),
        ends_in_newline("CAMPAIGN NOTES (GM's own records):\n"@),
        occurs_at("CAMPAIGN NOTES (GM's own records):\n"@, "CAMPAIGN NOTES"@, 0),
{
    reveal_strlit("CAMPAIGN NOTES");
    reveal_strlit("CAMPAIGN NOTES (GM's own records):\n");
    reveal_strlit("REFERENCE MATERIAL");
    reveal_strlit("[Source:");
    reveal_strlit("Entity scope is critical");
    lemma_free_by_char("CAMPAIGN NOTES (GM's own records):\n"@, "REFERENCE MATERIAL"@, 0);
    lemma_free_by_char("CAMPAIGN NOTES (GM's own records):\n"@, "[Source:"@, 0);
    lemma_free_by_char("CAMPAIGN NOTES (GM's own records):\n"@, "Entity scope is critical"@, 2);
    assert("CAMPAIGN NOTES (GM's own records):\n"@.subrange(0, 0 + "CAMPAIGN NOTES"@.len() as int) =~= "CAMPAIGN NOTES"@);
}

/// With at least one context, the system prompt holds no `n` when none of
/// the blocks that it is made of holds one.
proof fn lemma_prompt_free(rag: Seq<char>, ent: Seq<char>, n: Seq<char>)
    requires
        rag.len() > 0 || ent.len() > 0,
        single_line(n),
        n.len() > 0,
        !contains_seq(PROMPT_HEAD@, n),
        !contains_seq(PROMPT_INSTRUCTIONS@, n),
        !contains_seq(PROMPT_READ_ALL@, n),
        !contains_seq(PROMPT_CONCISE@, n),
        rag.len() > 0 ==> {
            &&& !contains_seq("REFERENCE MATERIAL:\n"@, n)
            &&& !contains_seq(rag, n)
            &&& !contains_seq(PROMPT_SCOPE@, n)
            &&& !contains_seq(PROMPT_NO_VERBATIM@, n)
            &&& !contains_seq(PROMPT_CITE_SOURCE@, n)
        },
        ent.len() > 0 ==> {
            &&& !contains_seq("CAMPAIGN NOTES (GM's own records):\n"@, n)
            &&& !contains_seq(ent, n)
            &&& !contains_seq(PROMPT_CITE_ENTITY@, n)
        },
        ends_in_newline(PROMPT_HEAD@),
        ends_in_newline(PROMPT_INSTRUCTIONS@),
        ends_in_newline(PROMPT_READ_ALL@),
        ends_in_newline(PROMPT_SCOPE@),
        ends_in_newline(PROMPT_CONCISE@),
        ends_in_newline(PROMPT_NO_VERBATIM@),
        ends_in_newline(PROMPT_CITE_SOURCE@),
        ends_in_newline(PROMPT_CITE_ENTITY@),
        ends_in_newline("REFERENCE MATERIAL:\n"@),
        ends_in_newline("CAMPAIGN NOTES (GM's own records):\n"@),
    ensures
        !contains_seq(system_prompt_spec(rag, ent), n),
{
    let has_rag = rag.len() > 0;
    let has_ent = ent.len() > 0;
    let h = PROMPT_HEAD@;
    let a = when(has_rag, "REFERENCE MATERIAL:\n"@ + rag + seq!['\n']);
    let b = when(has_ent, "CAMPAIGN NOTES (GM's own records):\n"@ + ent + seq!['\n']);
    let sc = when(has_rag, PROMPT_SCOPE@);
    let nv = when(has_rag, PROMPT_NO_VERBATIM@ + PROMPT_CITE_SOURCE@);
    let ce = when(has_ent, PROMPT_CITE_ENTITY@);
    if has_rag {
        lemma_section_free("REFERENCE MATERIAL:\n"@, rag, n);
        lemma_free_chain(PROMPT_NO_VERBATIM@, PROMPT_CITE_SOURCE@, n);
    }
    if has_ent {
        lemma_section_free("CAMPAIGN NOTES (GM's own records):\n"@, ent, n);
    }
    lemma_free_chain(h, a, n);
    lemma_free_chain(h + a, b, n);
    lemma_free_chain(h + a + b, PROMPT_INSTRUCTIONS@, n);
    lemma_free_chain(h + a + b + PROMPT_INSTRUCTIONS@, PROMPT_READ_ALL@, n);
    let x = h + a + b + PROMPT_INSTRUCTIONS@ + PROMPT_READ_ALL@;
    lemma_free_chain(x, sc, n);
    lemma_free_chain(x + sc, PROMPT_CONCISE@, n);
    lemma_free_chain(x + sc + PROMPT_CONCISE@, nv, n);
    lemma_free_chain(x + sc + PROMPT_CONCISE@ + nv, ce, n);
}

/// The section markers are non-empty and have no line break.
proof fn lemma_markers_single_line()
    ensures
        single_line("REFERENCE MATERIAL"@) && "REFERENCE MATERIAL"@.len() > 0,
        single_line("[Source:"@) && "[Source:"@.len() > 0,
        single_line("Entity scope is critical"@) && "Entity scope is critical"@.len() > 0,
        single_line("CAMPAIGN NOTES"@) && "CAMPAIGN NOTES"@.len() > 0,
        single_line("[Entity:"@) && "[Entity:"@.len() > 0,
{
    reveal_strlit("REFERENCE MATERIAL");
    reveal_strlit("[Source:");
    reveal_strlit("Entity scope is critical");
    reveal_strlit("CAMPAIGN NOTES");
    reveal_strlit("[Entity:");
}

/// Every fixed block of the system prompt ends a line.
proof fn lemma_blocks_end_lines()
    ensures
        ends_in_newline(PROMPT_HEAD@),
        ends_in_newline(PROMPT_INSTRUCTIONS@),
        ends_in_newline(PROMPT_READ_ALL@),
        ends_in_newline(PROMPT_SCOPE@),
        ends_in_newline(PROMPT_CONCISE@),
        ends_in_newline(PROMPT_NO_VERBATIM@),
        ends_in_newline(PROMPT_CITE_SOURCE@),
        ends_in_newline(PROMPT_CITE_ENTITY@),
        ends_in_newline("REFERENCE MATERIAL:\n"@),
        ends_in_newline("CAMPAIGN NOTES (GM's own records):\n"@),
{
    lemma_head_free();
    lemma_instructions_free();
    lemma_read_all_free();
    lemma_scope_free();
    lemma_concise_free();
    lemma_no_verbatim_free();
    lemma_cite_source_free();
    lemma_cite_entity_free();
    lemma_rag_heading_free();
    lemma_notes_heading_free();
}

/// Without passages the prompt holds no marker of reference material.
proof fn lemma_rag_markers_absent(rag: Seq<char>, ent: Seq<char>)
    requires
        rag.len() == 0,
        ent.len() > 0,
        marker_free(ent),
    ensures
        !contains_seq(system_prompt_spec(rag, ent), "REFERENCE MATERIAL"@),
        !contains_seq(system_prompt_spec(rag, ent), "[Source:"@),
        !contains_seq(system_prompt_spec(rag, ent), "Entity scope is critical"@),
{
    lemma_markers_single_line();
    lemma_blocks_end_lines();
    lemma_head_free();
    lemma_instructions_free();
    lemma_read_all_free();
    lemma_concise_free();
    lemma_cite_entity_free();
    lemma_notes_heading_free();
    lemma_prompt_free(rag, ent, "REFERENCE MATERIAL"@);
    lemma_prompt_free(rag, ent, "[Source:"@);
    lemma_prompt_free(rag, ent, "Entity scope is critical"@);
}

/// Without notes the prompt holds no marker of campaign notes.
proof fn lemma_notes_markers_absent(rag: Seq<char>, ent: Seq<char>)
    requires
        rag.len() > 0,
        ent.len() == 0,
        marker_free(rag),
    ensures
        !contains_seq(system_prompt_spec(rag, ent), "CAMPAIGN NOTES"@),
        !contains_seq(system_prompt_spec(rag, ent), "[Entity:"@),
{
    lemma_markers_single_line();
    lemma_blocks_end_lines();
    lemma_head_free();
    lemma_instructions_free();
    lemma_read_all_free();
    lemma_concise_free();
    lemma_scope_free();
    lemma_no_verbatim_free();
    lemma_cite_source_free();
    lemma_rag_heading_free();
    lemma_prompt_free(rag, ent, "CAMPAIGN NOTES"@);
    lemma_prompt_free(rag, ent, "[Entity:"@);
}

/// With passages the prompt holds them and every marker of reference
/// material.
proof fn lemma_rag_markers_present(rag: Seq<char>, ent: Seq<char>)
    requires
        rag.len() > 0,
    ensures
        contains_seq(system_prompt_spec(rag, ent), rag),
        contains_seq(system_prompt_spec(rag, ent), "REFERENCE MATERIAL"@),
        contains_seq(system_prompt_spec(rag, ent), "[Source:"@),
        contains_seq(system_prompt_spec(rag, ent), "Entity scope is critical"@),
        contains_seq(system_prompt_spec(rag, ent), "Game Master assistant"@),
{
    lemma_head_free();
    lemma_scope_free();
    lemma_cite_source_free();
    lemma_rag_heading_free();
    let p = system_prompt_spec(rag, ent);
    let e = Seq::<char>::empty();
    let has_ent = ent.len() > 0;
    let h = PROMPT_HEAD@;
    let hr = "REFERENCE MATERIAL:\n"@;
    let a = hr + rag + seq!['\n'];
    let b = when(has_ent, "CAMPAIGN NOTES (GM's own records):\n"@ + ent + seq!['\n']);
    let nv = PROMPT_NO_VERBATIM@ + PROMPT_CITE_SOURCE@;
    let ce = when(has_ent, PROMPT_CITE_ENTITY@);
    let x = h + a + b + PROMPT_INSTRUCTIONS@ + PROMPT_READ_ALL@;
    let y = x + PROMPT_SCOPE@ + PROMPT_CONCISE@;
    assert(p == y + nv + ce);
    let after_a = b + PROMPT_INSTRUCTIONS@ + PROMPT_READ_ALL@ + PROMPT_SCOPE@ + PROMPT_CONCISE@ + nv + ce;
    assert(e + h + (a + after_a) =~= p);
    lemma_occurs_within(e, h, a + after_a, "Game Master assistant"@, 18);
    assert(h + a + after_a =~= p);
    lemma_occurs_within(e, hr, rag + seq!['\n'], "REFERENCE MATERIAL"@, 0);
    assert(e + hr + (rag + seq!['\n']) =~= a);
    lemma_occurs_within(h, a, after_a, "REFERENCE MATERIAL"@, 0);
    assert(rag.subrange(0, rag.len() as int) =~= rag);
    lemma_occurs_within(hr, rag, seq!['\n'], rag, 0);
    lemma_occurs_within(h, a, after_a, rag, hr.len() as int);
    lemma_occurs_within(x, PROMPT_SCOPE@, PROMPT_CONCISE@ + nv + ce, "Entity scope is critical"@, 2);
    assert(x + PROMPT_SCOPE@ + (PROMPT_CONCISE@ + nv + ce) =~= p);
    lemma_occurs_within(PROMPT_NO_VERBATIM@, PROMPT_CITE_SOURCE@, e, "[Source:"@, 182);
    assert(PROMPT_NO_VERBATIM@ + PROMPT_CITE_SOURCE@ + e =~= nv);
    lemma_occurs_within(y, nv, ce, "[Source:"@, PROMPT_NO_VERBATIM@.len() + 182int);
}

/// With notes the prompt holds them and every marker of campaign notes.
proof fn lemma_notes_markers_present(rag: Seq<char>, ent: Seq<char>)
    requires
        ent.len() > 0,
    ensures
        contains_seq(system_prompt_spec(rag, ent), ent),
        contains_seq(system_prompt_spec(rag, ent), "CAMPAIGN NOTES"@),
        contains_seq(system_prompt_spec(rag, ent), "[Entity:"@),
        contains_seq(system_prompt_spec(rag, ent), "Game Master assistant"@),
{
    lemma_head_free();
    lemma_cite_entity_free();
    lemma_notes_heading_free();
    let p = system_prompt_spec(rag, ent);
    let e = Seq::<char>::empty();
    let has_rag = rag.len() > 0;
    let h = PROMPT_HEAD@;
    let he = "CAMPAIGN NOTES (GM's own records):\n"@;
    let a = when(has_rag, "REFERENCE MATERIAL:\n"@ + rag + seq!['\n']);
    let b = he + ent + seq!['\n'];
    let sc = when(has_rag, PROMPT_SCOPE@);
    let nv = when(has_rag, PROMPT_NO_VERBATIM@ + PROMPT_CITE_SOURCE@);
    let y = h + a + b + PROMPT_INSTRUCTIONS@ + PROMPT_READ_ALL@ + sc + PROMPT_CONCISE@;
    assert(p == y + nv + PROMPT_CITE_ENTITY@);
    let after_b = PROMPT_INSTRUCTIONS@ + PROMPT_READ_ALL@ + sc + PROMPT_CONCISE@ + nv + PROMPT_CITE_ENTITY@;
    assert(e + h + (a + b + after_b) =~= p);
    lemma_occurs_within(e, h, a + b + after_b, "Game Master assistant"@, 18);
    assert(h + a + b + after_b =~= p);
    lemma_occurs_within(e, he, ent + seq!['\n'], "CAMPAIGN NOTES"@, 0);
    assert(e + he + (ent + seq!['\n']) =~= b);
    lemma_occurs_within(h + a, b, after_b, "CAMPAIGN NOTES"@, 0);
    assert(ent.subrange(0, ent.len() as int) =~= ent);
    lemma_occurs_within(he, ent, seq!['\n'], ent, 0);
    lemma_occurs_within(h + a, b, after_b, ent, he.len() as int);
    lemma_occurs_within(y + nv, PROMPT_CITE_ENTITY@, e, "[Entity:"@, 90);
    assert(y + nv + PROMPT_CITE_ENTITY@ + e =~= p);
}

/// What the system prompt shows of its sections: it always introduces the
/// Game Master assistant and holds both context texts; and when those texts
/// hold no section marker themselves, the markers of the reference material
/// (its heading, the source citation format and the entity-scope rule) occur
/// in it exactly when there are passages, and the markers of the campaign
/// notes (their heading and the entity citation format) exactly when there
/// are notes.
pub proof fn lemma_system_prompt_markers(rag: Seq<char>, ent: Seq<char>)
    requires
        marker_free(rag),
        marker_free(ent),
    ensures
        contains_seq(system_prompt_spec(rag, ent), "Game Master assistant"@),
        contains_seq(system_prompt_spec(rag, ent), rag),
        contains_seq(system_prompt_spec(rag, ent), ent),
        contains_seq(system_prompt_spec(rag, ent), "REFERENCE MATERIAL"@) == (rag.len() > 0),
        contains_seq(system_prompt_spec(rag, ent), "[Source:"@) == (rag.len() > 0),
        contains_seq(system_prompt_spec(rag, ent), "Entity scope is critical"@) == (rag.len() > 0),
        contains_seq(system_prompt_spec(rag, ent), "CAMPAIGN NOTES"@) == (ent.len() > 0),
        contains_seq(system_prompt_spec(rag, ent), "[Entity:"@) == (ent.len() > 0),
{
    let p = system_prompt_spec(rag, ent);
    let has_rag = rag.len() > 0;
    let has_ent = ent.len() > 0;
    if !has_rag {
        assert(p.subrange(0, 0) =~= rag);
        assert(occurs_at(p, rag, 0));
    }
    if !has_ent {
        assert(p.subrange(0, 0) =~= ent);
        assert(occurs_at(p, ent, 0));
    }
    if !has_rag && !has_ent {
        lemma_fallback_free();
        assert(occurs_at(p, "Game Master assistant"@, 18));
    } else {
        if has_rag {
            lemma_rag_markers_present(rag, ent);
        } else {
            lemma_rag_markers_absent(rag, ent);
        }
        if has_ent {
            lemma_notes_markers_present(rag, ent);
        } else {
            lemma_notes_markers_absent(rag, ent);
        }
    }
}

/// Builds the system prompt from the retrieved passages and the campaign
/// notes; either may be empty.
pub fn build_system_prompt(rag_context: &str, entity_context: &str) -> (r: String)
    ensures
        r@ == system_prompt_spec(rag_context@, entity_context@),
{
    let has_rag = !rag_context.is_empty();
    let has_ent = !entity_context.is_empty();
    proof {
        assert(has_rag == (rag_context@.len() > 0));
        assert(has_ent == (entity_context@.len() > 0));
    }
    if !has_rag && !has_ent {
        return PROMPT_FALLBACK.to_owned();
    }
    let mut out: Vec<char> = Vec::new();
    extend_str(&mut out, PROMPT_HEAD);
    let ghost a = out@;
    if has_rag {
        extend_str(&mut out, "REFERENCE MATERIAL:\n");
        extend_str(&mut out, rag_context);
        out.push('\n');
    }
    assert(out@ =~= a + when(has_rag, "REFERENCE MATERIAL:\n"@ + rag_context@ + seq!['\n']));
    let ghost b = out@;
    if has_ent {
        extend_str(&mut out, "CAMPAIGN NOTES (GM's own records):\n");
        extend_str(&mut out, entity_context);
        out.push('\n');
    }
    assert(out@ =~= b + when(has_ent, "CAMPAIGN NOTES (GM's own records):\n"@ + entity_context@ + seq!['\n']));
    extend_str(&mut out, PROMPT_INSTRUCTIONS);
    extend_str(&mut out, PROMPT_READ_ALL);
    let ghost c = out@;
    if has_rag {
        extend_str(&mut out, PROMPT_SCOPE);
    }
    assert(out@ =~= c + when(has_rag, PROMPT_SCOPE@));
    extend_str(&mut out, PROMPT_CONCISE);
    let ghost d = out@;
    if has_rag {
        extend_str(&mut out, PROMPT_NO_VERBATIM);
        extend_str(&mut out, PROMPT_CITE_SOURCE);
    }
    assert(out@ =~= d + when(has_rag, PROMPT_NO_VERBATIM@ + PROMPT_CITE_SOURCE@));
    let ghost e = out@;
    if has_ent {
        extend_str(&mut out, PROMPT_CITE_ENTITY);
    }
    assert(out@ =~= e + when(has_ent, PROMPT_CITE_ENTITY@));
    string_of(&out)
}

} // verus!
