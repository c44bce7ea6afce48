//! LLM-driven entity extraction: the prompts, the reading of replies, the
//! batching of passages, and the bookkeeping of an extraction run.
use vstd::prelude::*;
use crate::agent::prompt::SearchResult;
use crate::entity::{EntityError, EntityInput, EntityKind, GraphNode, kind_for_table};
use crate::text::{contains_str, contains_seq, chars_of, extend_chars, extend_str, is_blank, lemma_utf8_len_add, slice_chars, string_of, trim, trim_chars, utf8_len_of, utf8_len_sat, chars_eq};
use crate::decimal::{int_decimal, push_usize_decimal};

verus! {

// ── Errors, phases, progress ───────────────────────────────────────────────

/// Failures of an extraction run.
#[derive(Debug)]
pub enum ExtractionError {
    Llm(String),
    Db(String),
    Embedding(String),
    Parse(String),
}

/// What an extraction run produced.
#[derive(Debug, Clone)]
pub struct ExtractionResult {
    pub entities_created: usize,
    pub relations_created: usize,
    pub entities: Vec<GraphNode>,
}

/// The stage an extraction run is in.
#[derive(Debug, Clone, Copy, PartialEq, Eq, Structural)]
pub enum ExtractionPhase {
    Resolving,
    Searching,
    Extracting,
    Enriching,
    Relating,
    Embedding,
    Done,
    Empty,
}

/// A progress report of an extraction run.
#[derive(Debug, Clone)]
pub struct ExtractionProgress {
    pub phase: ExtractionPhase,
    pub detail: String,
    pub entities_found: usize,
    pub relations_found: usize,
}

// ── Prompts ────────────────────────────────────────────────────────────────

/// Definitions of the entity kinds, shared by the classifying prompts.
pub const ENTITY_KIND_DEFS: &'static str = "Entity kinds (choose the single best fit):
- npc: a single named individual (person, named monster, deity).
- location: a place — region, settlement, building, room, or plane.
- faction: any organized group of people — guild, cult, government, military order, crime ring, noble house, family, or clan.
- creature: a kind or species of being, not a named individual (e.g. \"goblin\", \"owlbear\").
- item: an object, artifact, weapon, or substance.
- event: something that happens at a point or span in time.
- player_character: a player character (PC) controlled by a player.
- misc: anything that fits none of the above.";

/// The relationship-type vocabulary, shared by the classifying prompts.
pub const REL_TYPE_VOCAB: &'static str = "Relationship types. Emit EXACTLY ONE snake_case value from the list below (e.g. `leads` OR `led_by` — never both, never the slash, never invent a new one unless none fits). Pick the side whose direction matches the sentence. Only if nothing fits, use a short snake_case verb:
- leads / led_by: X leads or commands group Y (led_by is the inverse).
- member_of / has_member: X belongs to group or family Y.
- located_in / contains: X is situated within place Y.
- owns / owned_by: X owns or possesses Y.
- serves / served_by: X serves or is loyal to Y.
- created / created_by: X created or founded Y.
- parent_of / child_of: X is a parent or ancestor of Y.
- allied_with: X and Y are allied (no direction).
- enemy_of: X and Y are enemies (no direction).
- related_to: X and Y are kin or otherwise associated (no direction).
- knows: X and Y are acquainted (no direction).";

/// A fixed piece of the prompt text.
pub const EXTRACTION_PART_0: &'static str = "You are an expert at extracting structured game entities from TTRPG source material.\n\nExtract all named entities from the following text. For each entity:\n- Identify its kind using these definitions:\n";

/// A fixed piece of the prompt text.
pub const EXTRACTION_PART_1: &'static str = "\n- For entities directly related to a level-0 entity, include them in that entity's \"relations\" array\n- For entities mentioned only in passing (level 2+), write their names as [[wikilinks]] inside the notes field — do NOT extract them as separate entities\n\nField rules (apply to BOTH top-level entities and entities in \"relations\"):\n- \"summary\": a short, concise description of the entity ITSELF — who or what it is — in 1 sentence. Do NOT describe how it relates to any other entity here. The ONLY exception is when the entity is inherently about a relationship (e.g. an association, alliance, or pact between parties); then the relationship is its identity and belongs in the summary.\n- \"notes\": a more thorough description, including how this entity relates to others (its role, ties, and the connection to the entity it was extracted alongside). May contain [[wikilinks]]. Leave empty if there is nothing beyond the summary.\n\n";

/// A fixed piece of the prompt text.
pub const EXTRACTION_PART_2: &'static str = "\n\nReturn ONLY valid JSON matching this exact schema (no markdown, no explanation):\n\n{\n  \"entities\": [\n    {\n      \"name\": \"string\",\n      \"kind\": \"npc|location|faction|creature|item|event|player_character|misc\",\n      \"summary\": \"short, concise description of the entity itself\",\n      \"notes\": \"optional longer description incl. relationships, may contain [[wikilinks]]\",\n      \"relations\": [\n        {\n          \"name\": \"string\",\n          \"kind\": \"string\",\n          \"rel_type\": \"exactly one snake_case type from the list below, e.g. leads\",\n          \"summary\": \"short, concise description of this entity itself — NOT its relation to the parent\",\n          \"notes\": \"optional longer description incl. how it relates to the parent entity\"\n        }\n      ]\n    }\n  ]\n}\n\nSource text:\n";

/// The prompt that asks for every entity of `chunk_text` as JSON.
pub open spec fn extraction_prompt_spec(chunk_text: Seq<char>) -> Seq<char> {
    EXTRACTION_PART_0@
        + ENTITY_KIND_DEFS@
        + EXTRACTION_PART_1@
        + REL_TYPE_VOCAB@
        + EXTRACTION_PART_2@
        + chunk_text
}

/// The prompt that asks for every entity of `chunk_text` as JSON.
pub fn build_extraction_prompt(chunk_text: &str) -> (r: String)
    ensures
        r@ == extraction_prompt_spec(chunk_text@),
{
    let mut out: Vec<char> = Vec::new();
    extend_str(&mut out, EXTRACTION_PART_0);
    extend_str(&mut out, ENTITY_KIND_DEFS);
    extend_str(&mut out, EXTRACTION_PART_1);
    extend_str(&mut out, REL_TYPE_VOCAB);
    extend_str(&mut out, EXTRACTION_PART_2);
    extend_str(&mut out, chunk_text);
    assert(out@ =~= extraction_prompt_spec(chunk_text@));
    string_of(&out)
}

/// A fixed piece of the prompt text.
pub const SEED_PART_0: &'static str = "You are an expert at extracting structured game entities from TTRPG source material.\n\nBuild a complete profile of the entity named \"";

/// A fixed piece of the prompt text.
pub const SEED_PART_1: &'static str = "\" using ONLY the source text below.\n- Output \"";

/// A fixed piece of the prompt text.
pub const SEED_PART_2: &'static str = "\" as a single level-0 entity with its kind, summary, and notes.\n- Classify every entity's kind using these definitions:\n";

/// A fixed piece of the prompt text.
pub const SEED_PART_3: &'static str = "\n- Include entities DIRECTLY related to \"";

/// A fixed piece of the prompt text.
pub const SEED_PART_4: &'static str = "\" in its \"relations\" array (allies, members, locations, leaders, etc.).\n- For entities mentioned only in passing, write their names as [[wikilinks]] inside notes — do NOT extract them separately.\n- If \"";

/// A fixed piece of the prompt text.
pub const SEED_PART_5: &'static str = "\" is not described in the text, return an empty \"entities\" array.\n\nField rules (apply to BOTH \"";

/// A fixed piece of the prompt text.
pub const SEED_PART_6: &'static str = "\" and entities in \"relations\"):\n- \"summary\": a short, concise description of the entity ITSELF — who or what it is — in 1 sentence. Do NOT describe how a related entity connects to \"";

/// A fixed piece of the prompt text.
pub const SEED_PART_7: &'static str = "\" here. The ONLY exception is when the entity is inherently about a relationship (e.g. an association, alliance, or pact between parties); then the relationship is its identity and belongs in the summary.\n- \"notes\": a more thorough description, including how the entity relates to \"";

/// A fixed piece of the prompt text.
pub const SEED_PART_8: &'static str = "\" (its role, ties, and connection). May contain [[wikilinks]]. Leave empty if there is nothing beyond the summary.\n\n";

/// A fixed piece of the prompt text.
pub const SEED_PART_9: &'static str = "\n\nReturn ONLY valid JSON matching this exact schema (no markdown, no explanation):\n\n{\n  \"entities\": [\n    {\n      \"name\": \"string\",\n      \"kind\": \"npc|location|faction|creature|item|event|player_character|misc\",\n      \"summary\": \"short, concise description of the entity itself\",\n      \"notes\": \"optional longer description incl. relationships, may contain [[wikilinks]]\",\n      \"relations\": [\n        { \"name\": \"string\", \"kind\": \"string\", \"rel_type\": \"exactly one snake_case type from the list below, e.g. leads\", \"summary\": \"short, concise description of this entity itself — NOT its relation to ";

/// A fixed piece of the prompt text.
pub const SEED_PART_10: &'static str = "\", \"notes\": \"optional longer description incl. how it relates to ";

/// A fixed piece of the prompt text.
pub const SEED_PART_11: &'static str = "\" }\n      ]\n    }\n  ]\n}\n\nSource text:\n";

/// The prompt that asks for the entity `name` and its direct relations in `chunk_text` as JSON.
pub open spec fn seed_prompt_spec(name: Seq<char>, chunk_text: Seq<char>) -> Seq<char> {
    SEED_PART_0@
        + name
        + SEED_PART_1@
        + name
        + SEED_PART_2@
        + ENTITY_KIND_DEFS@
        + SEED_PART_3@
        + name
        + SEED_PART_4@
        + name
        + SEED_PART_5@
        + name
        + SEED_PART_6@
        + name
        + SEED_PART_7@
        + name
        + SEED_PART_8@
        + REL_TYPE_VOCAB@
        + SEED_PART_9@
        + name
        + SEED_PART_10@
        + name
        + SEED_PART_11@
        + chunk_text
}

/// The prompt that asks for the entity `name` and its direct relations in `chunk_text` as JSON.
pub fn build_seed_prompt(name: &str, chunk_text: &str) -> (r: String)
    ensures
        r@ == seed_prompt_spec(name@, chunk_text@),
{
    let mut out: Vec<char> = Vec::new();
    extend_str(&mut out, SEED_PART_0);
    extend_str(&mut out, name);
    extend_str(&mut out, SEED_PART_1);
    extend_str(&mut out, name);
    extend_str(&mut out, SEED_PART_2);
    extend_str(&mut out, ENTITY_KIND_DEFS);
    extend_str(&mut out, SEED_PART_3);
    extend_str(&mut out, name);
    extend_str(&mut out, SEED_PART_4);
    extend_str(&mut out, name);
    extend_str(&mut out, SEED_PART_5);
    extend_str(&mut out, name);
    extend_str(&mut out, SEED_PART_6);
    extend_str(&mut out, name);
    extend_str(&mut out, SEED_PART_7);
    extend_str(&mut out, name);
    extend_str(&mut out, SEED_PART_8);
    extend_str(&mut out, REL_TYPE_VOCAB);
    extend_str(&mut out, SEED_PART_9);
    extend_str(&mut out, name);
    extend_str(&mut out, SEED_PART_10);
    extend_str(&mut out, name);
    extend_str(&mut out, SEED_PART_11);
    extend_str(&mut out, chunk_text);
    assert(out@ =~= seed_prompt_spec(name@, chunk_text@));
    string_of(&out)
}

/// A fixed piece of the prompt text.
pub const PROFILE_PART_0: &'static str = "You are an expert at describing game entities from TTRPG source material.\n\nDescribe ONLY the entity named \"";

/// A fixed piece of the prompt text.
pub const PROFILE_PART_1: &'static str = "\" using the source text below.\n- \"summary\": a short, concise description of \"";

/// A fixed piece of the prompt text.
pub const PROFILE_PART_2: &'static str = "\" ITSELF — who or what it is — in 1 sentence. Do NOT describe how it relates to other entities, UNLESS \"";

/// A fixed piece of the prompt text.
pub const PROFILE_PART_3: &'static str = "\" is inherently about a relationship (e.g. an association, alliance, or pact between parties), in which case that relationship is its identity and belongs here.\n- \"notes\": a more thorough description, including how \"";

/// A fixed piece of the prompt text.
pub const PROFILE_PART_4: &'static str = "\" relates to others. May contain [[wikilinks]]. Use an empty string if there is nothing beyond the summary.\n- If \"";

/// A fixed piece of the prompt text.
pub const PROFILE_PART_5: &'static str = "\" is not described in the text, return empty strings.\n\nDo NOT extract any other entities or relations.\n\nReturn ONLY valid JSON matching this exact schema (no markdown, no explanation):\n\n{ \"summary\": \"string\", \"notes\": \"string\" }\n\nSource text:\n";

/// The prompt that asks for a description of the entity `name` alone from `chunk_text`.
pub open spec fn profile_prompt_spec(name: Seq<char>, chunk_text: Seq<char>) -> Seq<char> {
    PROFILE_PART_0@
        + name
        + PROFILE_PART_1@
        + name
        + PROFILE_PART_2@
        + name
        + PROFILE_PART_3@
        + name
        + PROFILE_PART_4@
        + name
        + PROFILE_PART_5@
        + chunk_text
}

/// The prompt that asks for a description of the entity `name` alone from `chunk_text`.
pub fn build_profile_prompt(name: &str, chunk_text: &str) -> (r: String)
    ensures
        r@ == profile_prompt_spec(name@, chunk_text@),
{
    let mut out: Vec<char> = Vec::new();
    extend_str(&mut out, PROFILE_PART_0);
    extend_str(&mut out, name);
    extend_str(&mut out, PROFILE_PART_1);
    extend_str(&mut out, name);
    extend_str(&mut out, PROFILE_PART_2);
    extend_str(&mut out, name);
    extend_str(&mut out, PROFILE_PART_3);
    extend_str(&mut out, name);
    extend_str(&mut out, PROFILE_PART_4);
    extend_str(&mut out, name);
    extend_str(&mut out, PROFILE_PART_5);
    extend_str(&mut out, chunk_text);
    assert(out@ =~= profile_prompt_spec(name@, chunk_text@));
    string_of(&out)
}

// ── Reading replies ────────────────────────────────────────────────────────

/// The kind of an extracted entity: the kind whose table the model named,
/// `Misc` for anything else.
pub fn parse_kind(kind: &str) -> (r: EntityKind)
    ensures
        r == match kind_for_table(kind@) {
            Some(k) => k,
            None => EntityKind::Misc,
        },
{
    match EntityKind::from_table(kind) {
        Ok(k) => k,
        Err(_) => EntityKind::Misc,
    }
}

/// Opening fence of a JSON code block.
pub const FENCE_JSON: &'static str = "```json";

/// A code fence.
pub const FENCE: &'static str = "```";

/// `s` with every trailing copy of `suf` removed.
pub open spec fn strip_suffix_all(s: Seq<char>, suf: Seq<char>) -> Seq<char>
    decreases s.len(),
{
    if suf.len() > 0 && s.len() >= suf.len() && s.skip(s.len() - suf.len()) == suf {
        strip_suffix_all(s.take(s.len() - suf.len()), suf)
    } else {
        s
    }
}

/// `s` starts with `p`.
pub open spec fn starts_with(s: Seq<char>, p: Seq<char>) -> bool {
    s.len() >= p.len() && s.take(p.len() as int) == p
}

/// The JSON inside a reply: the trimmed reply, or, when it opens with a
/// code fence (` ```json ` or ` ``` `), what follows the fence with trailing
/// fences removed, trimmed.
pub open spec fn strip_fences_spec(raw: Seq<char>) -> Seq<char> {
    let t = trim(raw);
    if starts_with(t, FENCE_JSON@) {
        trim(strip_suffix_all(t.skip(FENCE_JSON@.len() as int), FENCE@))
    } else if starts_with(t, FENCE@) {
        trim(strip_suffix_all(t.skip(FENCE@.len() as int), FENCE@))
    } else {
        t
    }
}

fn starts_with_exec(s: &Vec<char>, p: &Vec<char>) -> (r: bool)
    ensures
        r == starts_with(s@, p@),
{
    if s.len() < p.len() {
        return false;
    }
    let head = slice_chars(s, 0, p.len());
    assert(head@ =~= s@.take(p@.len() as int));
    chars_eq(&head, p)
}

fn ends_with_exec(s: &Vec<char>, suf: &Vec<char>) -> (r: bool)
    ensures
        r == (suf@.len() > 0 && s@.len() >= suf@.len() && s@.skip(s@.len() - suf@.len()) == suf@),
{
    if suf.len() == 0 || s.len() < suf.len() {
        return false;
    }
    let tail = slice_chars(s, s.len() - suf.len(), s.len());
    assert(tail@ =~= s@.skip(s@.len() - suf@.len()));
    chars_eq(&tail, suf)
}

fn strip_suffix_all_exec(s: Vec<char>, suf: &Vec<char>) -> (r: Vec<char>)
    ensures
        r@ == strip_suffix_all(s@, suf@),
{
    let mut cur = s;
    let ghost orig = cur@;
    while ends_with_exec(&cur, suf)
        invariant
            strip_suffix_all(orig, suf@) == strip_suffix_all(cur@, suf@),
        decreases cur@.len(),
    {
        let n = cur.len() - suf.len();
        let next = slice_chars(&cur, 0, n);
        assert(next@ =~= cur@.take(cur@.len() - suf@.len()));
        cur = next;
    }
    cur
}

/// Takes the JSON out of a model reply, dropping Markdown code fences.
pub fn strip_code_fences(raw: &str) -> (r: String)
    ensures
        r@ == strip_fences_spec(raw@),
{
    let rc = chars_of(raw);
    let t = trim_chars(&rc);
    let fj = chars_of(FENCE_JSON);
    let f = chars_of(FENCE);
    if starts_with_exec(&t, &fj) {
        let rest = slice_chars(&t, fj.len(), t.len());
        assert(rest@ =~= t@.skip(FENCE_JSON@.len() as int));
        let s = strip_suffix_all_exec(rest, &f);
        string_of(&trim_chars(&s))
    } else if starts_with_exec(&t, &f) {
        let rest = slice_chars(&t, f.len(), t.len());
        assert(rest@ =~= t@.skip(FENCE@.len() as int));
        let s = strip_suffix_all_exec(rest, &f);
        string_of(&trim_chars(&s))
    } else {
        string_of(&t)
    }
}

/// A relation of an extracted entity, as the model described it.
#[derive(Debug, Clone)]
pub struct LlmRelation {
    pub name: String,
    pub kind: String,
    pub rel_type: String,
    pub summary: Option<String>,
    pub notes: Option<String>,
}

/// An extracted entity, as the model described it.
#[derive(Debug, Clone)]
pub struct LlmEntity {
    pub name: String,
    pub kind: String,
    pub summary: Option<String>,
    pub notes: Option<String>,
    pub relations: Vec<LlmRelation>,
}

/// The entities of a model reply.
#[derive(Debug, Clone)]
pub struct LlmResponse {
    pub entities: Vec<LlmEntity>,
}

/// The input that creates an extracted entity: its name, summary and notes,
/// every other field empty.
pub fn extracted_input(name: &String, summary: &Option<String>, notes: &Option<String>) -> (r: EntityInput)
    ensures
        r.name@ == name@,
        r.summary == *summary,
        r.notes == *notes,
        r.date_start is None && r.date_end is None && r.is_ongoing is None && r.sequence_index is None,
        r.era is None && r.duration_label is None && r.session_id is None,
        r.player_name is None && r.character_class is None && r.character_level is None && r.status is None,
{
    EntityInput {
        name: name.clone(),
        summary: summary.clone(),
        notes: notes.clone(),
        date_start: None,
        date_end: None,
        is_ongoing: None,
        sequence_index: None,
        era: None,
        duration_label: None,
        session_id: None,
        player_name: None,
        character_class: None,
        character_level: None,
        status: None,
    }
}

/// A related entity is linked only when it is not bound to a campaign:
/// collection entities never point into a campaign.
pub fn may_link(rel_node: &GraphNode) -> (r: bool)
    ensures
        r == rel_node.campaign_id is None,
{
    rel_node.campaign_id.is_none()
}

/// The text embedded for an extracted entity: `[kind] name: summary`.
pub fn extraction_embed_text(node: &GraphNode) -> (r: String)
    ensures
        r@ == seq!['['] + node.kind@ + seq![']', ' '] + node.name@ + seq![':', ' '] + match node.summary {
            Some(s) => s@,
            None => Seq::empty(),
        },
{
    let mut out: Vec<char> = Vec::new();
    out.push('[');
    extend_str(&mut out, node.kind.as_str());
    out.push(']');
    out.push(' ');
    extend_str(&mut out, node.name.as_str());
    out.push(':');
    out.push(' ');
    let ghost a = out@;
    match &node.summary {
        Some(s) => {
            extend_str(&mut out, s.as_str());
        },
        None => {},
    }
    assert(out@ =~= a + match node.summary {
        Some(s) => s@,
        None => Seq::<char>::empty(),
    });
    string_of(&out)
}

// ── Batching ───────────────────────────────────────────────────────────────

/// Bytes of source text per model call (about four thousand tokens).
pub const BATCH_CHAR_BUDGET: usize = 16000;

/// Closed batches and the open one after the first passages.
pub open spec fn batch_state(ps: Seq<Seq<char>>) -> (Seq<Seq<char>>, Seq<char>)
    decreases ps.len(),
{
    if ps.len() == 0 {
        (Seq::empty(), Seq::empty())
    } else {
        let (done, cur) = batch_state(ps.drop_last());
        let p = ps.last();
        if cur.len() > 0 && utf8_len_of(cur) + utf8_len_of(p) > BATCH_CHAR_BUDGET {
            (done.push(cur), p.push('\n'))
        } else {
            (done, cur + p.push('\n'))
        }
    }
}

/// The batches of passages: each passage followed by a newline, a batch
/// closed before a passage that would take it over the byte budget (a
/// single passage may exceed it alone).
pub open spec fn batches_spec(ps: Seq<Seq<char>>) -> Seq<Seq<char>> {
    let (done, cur) = batch_state(ps);
    if cur.len() > 0 {
        done.push(cur)
    } else {
        done
    }
}

/// Groups passages into batches under the byte budget.
pub fn batch_passages(passages: &[String]) -> (r: Vec<String>)
    ensures
        r@.map_values(|x: String| x@) == batches_spec(passages@.map_values(|x: String| x@)),
{
    let ghost ps = passages@.map_values(|x: String| x@);
    let mut done: Vec<String> = Vec::new();
    let mut cur: Vec<char> = Vec::new();
    let mut cur_bytes: usize = 0;
    let mut i: usize = 0;
    while i < passages.len()
        invariant
            i <= passages@.len(),
            ps == passages@.map_values(|x: String| x@),
            batch_state(ps.take(i as int)) == (done@.map_values(|x: String| x@), cur@),
            cur_bytes as nat == if utf8_len_of(cur@) < usize::MAX { utf8_len_of(cur@) } else { usize::MAX as nat },
        decreases passages@.len() - i,
    {
        assert(ps.take(i + 1).drop_last() =~= ps.take(i as int));
        assert(ps.take(i + 1).last() == passages@[i as int]@);
        let pc = chars_of(passages[i].as_str());
        let pb = utf8_len_sat(&pc);
        if cur.len() > 0 && cur_bytes.saturating_add(pb) > BATCH_CHAR_BUDGET {
            let ghost prev = done@;
            let closed = string_of(&cur);
            done.push(closed);
            assert(done@.map_values(|x: String| x@) =~= prev.map_values(|x: String| x@).push(closed@));
            cur = Vec::new();
            cur_bytes = 0;
        }
        let ghost before = cur@;
        extend_chars(&mut cur, &pc);
        cur.push('\n');
        proof {
            assert(cur@ =~= before + pc@.push('\n'));
            lemma_utf8_len_add(before, pc@.push('\n'));
            assert(pc@.push('\n') =~= pc@ + seq!['\n']);
            lemma_utf8_len_add(pc@, seq!['\n']);
            assert(seq!['\n'].drop_last() =~= Seq::<char>::empty());
        }
        let ghost bb = cur_bytes;
        cur_bytes = cur_bytes.saturating_add(pb).saturating_add(1);
        proof {
            assert(utf8_len_of(seq!['\n']) == 1) by {
                let nl = seq!['\n'];
                assert(nl.last() == '\n');
                assert(nl.drop_last() =~= Seq::<char>::empty());
                assert(utf8_len_of(nl.drop_last()) == 0);
                assert(('\n' as u32) < 0x80);
                assert(crate::text::utf8_len('\n') == 1);
            }
            assert(utf8_len_of(cur@) == utf8_len_of(before) + utf8_len_of(pc@) + 1);
        }
        i += 1;
    }
    assert(ps.take(i as int) =~= ps);
    if cur.len() > 0 {
        let ghost prev = done@;
        let last = string_of(&cur);
        done.push(last);
        assert(done@.map_values(|x: String| x@) =~= prev.map_values(|x: String| x@).push(last@));
    }
    done
}

/// The sequences of `s` one after another.
pub open spec fn concat_all(s: Seq<Seq<char>>) -> Seq<char>
    decreases s.len(),
{
    if s.len() == 0 {
        Seq::empty()
    } else {
        concat_all(s.drop_last()) + s.last()
    }
}

/// Every passage followed by a newline.
pub open spec fn passage_lines(ps: Seq<Seq<char>>) -> Seq<Seq<char>> {
    ps.map_values(|p: Seq<char>| p.push('\n'))
}

proof fn lemma_batch_state_concat(ps: Seq<Seq<char>>)
    ensures
        concat_all(batch_state(ps).0) + batch_state(ps).1 == concat_all(passage_lines(ps)),
        forall|k: int| 0 <= k < batch_state(ps).0.len() ==> (#[trigger] batch_state(ps).0[k]).len() > 0,
    decreases ps.len(),
{
    if ps.len() == 0 {
        assert(concat_all(batch_state(ps).0) + batch_state(ps).1 =~= Seq::<char>::empty());
    } else {
        let d = ps.drop_last();
        lemma_batch_state_concat(d);
        let (done, cur) = batch_state(d);
        let p = ps.last();
        assert(passage_lines(ps).drop_last() =~= passage_lines(d));
        assert(passage_lines(ps).last() == p.push('\n'));
        if cur.len() > 0 && crate::text::utf8_len_of(cur) + crate::text::utf8_len_of(p) > BATCH_CHAR_BUDGET {
            assert(done.push(cur).drop_last() =~= done);
            assert(concat_all(done.push(cur)) + p.push('\n') =~= concat_all(done) + cur + p.push('\n'));
        } else {
            assert(concat_all(done) + (cur + p.push('\n')) =~= concat_all(done) + cur + p.push('\n'));
        }
    }
}

/// Batching loses nothing and reorders nothing: the batches one after
/// another are the passages, each followed by a newline; no batch is empty.
pub proof fn lemma_batches_keep_text(ps: Seq<Seq<char>>)
    ensures
        concat_all(batches_spec(ps)) == concat_all(passage_lines(ps)),
        forall|k: int| 0 <= k < batches_spec(ps).len() ==> (#[trigger] batches_spec(ps)[k]).len() > 0,
{
    lemma_batch_state_concat(ps);
    let (done, cur) = batch_state(ps);
    if cur.len() > 0 {
        assert(done.push(cur).drop_last() =~= done);
        assert forall|k: int| 0 <= k < done.push(cur).len() implies (#[trigger] done.push(cur)[k]).len() > 0 by {
            if k < done.len() {
                assert(done.push(cur)[k] == done[k]);
            }
        }
    } else {
        assert(concat_all(done) + cur =~= concat_all(done));
    }
}

// ── Passages of a seed search ──────────────────────────────────────────────

/// A passage found by a search: the chunk it came from and its text.
#[derive(Debug, Clone)]
pub struct PassageHit {
    pub chunk_id: String,
    pub text: String,
}

/// Prefix of semantic hit ids.
pub const CHUNK_PREFIX: &'static str = "chunk:";

/// `s` with every leading copy of `pre` removed.
pub open spec fn strip_prefix_all(s: Seq<char>, pre: Seq<char>) -> Seq<char>
    decreases s.len(),
{
    if pre.len() > 0 && starts_with(s, pre) {
        strip_prefix_all(s.skip(pre.len() as int), pre)
    } else {
        s
    }
}

/// The texts of `hits` whose id did not occur before, in order.
pub open spec fn first_by_id(hits: Seq<(Seq<char>, Seq<char>)>) -> Seq<Seq<char>>
    decreases hits.len(),
{
    if hits.len() == 0 {
        Seq::empty()
    } else {
        let prev = first_by_id(hits.drop_last());
        let h = hits.last();
        if exists|j: int| 0 <= j < hits.len() - 1 && (#[trigger] hits[j]).0 == h.0 {
            prev
        } else {
            prev.push(h.1)
        }
    }
}

/// The candidate passages of a seed search: semantic hits (ids without the
/// `chunk:` prefix) then lexical hits, each chunk once, first hit kept.
pub open spec fn union_spec(semantic: Seq<PassageHit>, lexical: Seq<PassageHit>) -> Seq<Seq<char>> {
    first_by_id(
        semantic.map_values(|h: PassageHit| (strip_prefix_all(h.chunk_id@, CHUNK_PREFIX@), h.text@)) + lexical.map_values(
            |h: PassageHit| (h.chunk_id@, h.text@),
        ),
    )
}

fn strip_prefix_all_exec(s: Vec<char>, pre: &Vec<char>) -> (r: Vec<char>)
    ensures
        r@ == strip_prefix_all(s@, pre@),
{
    let mut cur = s;
    let ghost orig = cur@;
    while pre.len() > 0 && starts_with_exec(&cur, pre)
        invariant
            strip_prefix_all(orig, pre@) == strip_prefix_all(cur@, pre@),
        decreases cur@.len(),
    {
        let n = cur.len();
        let next = slice_chars(&cur, pre.len(), n);
        assert(next@ =~= cur@.skip(pre@.len() as int));
        cur = next;
    }
    cur
}

/// The candidate passages of a seed search: the union of the semantic and
/// the lexical hits by chunk id, semantic ones first.
pub fn union_passages(semantic: &[PassageHit], lexical: &[PassageHit]) -> (r: Vec<String>)
    ensures
        r@.map_values(|x: String| x@) == union_spec(semantic@, lexical@),
{
    let ghost hits = semantic@.map_values(|h: PassageHit| (strip_prefix_all(h.chunk_id@, CHUNK_PREFIX@), h.text@))
        + lexical@.map_values(|h: PassageHit| (h.chunk_id@, h.text@));
    let pre = chars_of(CHUNK_PREFIX);
    // the hits keyed by their chunk id, semantic ones first
    let mut keyed: Vec<(Vec<char>, String)> = Vec::new();
    let mut a: usize = 0;
    while a < semantic.len()
        invariant
            a <= semantic@.len(),
            pre@ == CHUNK_PREFIX@,
            keyed@.len() == a,
            forall|k: int| 0 <= k < a ==> (#[trigger] keyed@[k]).0@ == hits[k].0 && keyed@[k].1@ == hits[k].1,
            hits == semantic@.map_values(|h: PassageHit| (strip_prefix_all(h.chunk_id@, CHUNK_PREFIX@), h.text@))
                + lexical@.map_values(|h: PassageHit| (h.chunk_id@, h.text@)),
        decreases semantic@.len() - a,
    {
        let c = chars_of(semantic[a].chunk_id.as_str());
        keyed.push((strip_prefix_all_exec(c, &pre), semantic[a].text.clone()));
        assert(hits[a as int] == (strip_prefix_all(semantic@[a as int].chunk_id@, CHUNK_PREFIX@), semantic@[a as int].text@));
        a += 1;
    }
    let mut b: usize = 0;
    while b < lexical.len()
        invariant
            b <= lexical@.len(),
            keyed@.len() == semantic@.len() + b,
            forall|k: int| 0 <= k < keyed@.len() ==> (#[trigger] keyed@[k]).0@ == hits[k].0 && keyed@[k].1@ == hits[k].1,
            hits == semantic@.map_values(|h: PassageHit| (strip_prefix_all(h.chunk_id@, CHUNK_PREFIX@), h.text@))
                + lexical@.map_values(|h: PassageHit| (h.chunk_id@, h.text@)),
        decreases lexical@.len() - b,
    {
        keyed.push((chars_of(lexical[b].chunk_id.as_str()), lexical[b].text.clone()));
        assert(hits[semantic@.len() + b] == (lexical@[b as int].chunk_id@, lexical@[b as int].text@));
        b += 1;
    }
    let mut seen: Vec<Vec<char>> = Vec::new();
    let mut out: Vec<String> = Vec::new();
    let mut i: usize = 0;
    while i < keyed.len()
        invariant
            hits.len() == keyed@.len(),
            forall|k: int| 0 <= k < keyed@.len() ==> (#[trigger] keyed@[k]).0@ == hits[k].0 && keyed@[k].1@ == hits[k].1,
            i <= keyed@.len(),
            seen@.len() == i,
            forall|k: int| 0 <= k < i ==> (#[trigger] seen@[k])@ == hits[k].0,
            out@.map_values(|x: String| x@) == first_by_id(hits.take(i as int)),
        decreases keyed@.len() - i,
    {
        let id = keyed[i].0.clone();
        let text = keyed[i].1.clone();
        assert(keyed@[i as int].0@ == hits[i as int].0);
        let mut dup = false;
        let mut j: usize = 0;
        while j < seen.len()
            invariant
                j <= seen@.len(),
                dup == exists|q: int| 0 <= q < j && (#[trigger] seen@[q])@ == id@,
            decreases seen@.len() - j,
        {
            if chars_eq(&seen[j], &id) {
                dup = true;
            }
            j += 1;
        }
        proof {
            let t = hits.take(i + 1);
            assert(t.drop_last() =~= hits.take(i as int));
            assert(t.last() == hits[i as int]);
            if dup {
                let q = choose|q: int| 0 <= q < seen@.len() && (#[trigger] seen@[q])@ == id@;
                assert(t[q] == hits[q]);
                assert(t[q].0 == t.last().0);
            }
            if exists|q: int| 0 <= q < t.len() - 1 && (#[trigger] t[q]).0 == t.last().0 {
                let q = choose|q: int| 0 <= q < t.len() - 1 && (#[trigger] t[q]).0 == t.last().0;
                assert(t[q] == hits[q]);
                assert(seen@[q]@ == id@);
            }
        }
        if !dup {
            let ghost prev = out@;
            let ts = text;
            out.push(ts);
            assert(out@.map_values(|x: String| x@) =~= prev.map_values(|x: String| x@).push(hits[i as int].1));
        }
        seen.push(id);
        i += 1;
    }
    assert(hits.take(i as int) =~= hits);
    out
}

// ── Progress reports ───────────────────────────────────────────────────────

/// `"` + `s` + `"`.
pub open spec fn quoted(s: Seq<char>) -> Seq<char> {
    seq!['"'] + s + seq!['"']
}

/// A progress report as plain values: phase, detail, entities, relations.
pub open spec fn pview(p: ExtractionProgress) -> (ExtractionPhase, Seq<char>, int, int) {
    (p.phase, p.detail@, p.entities_found as int, p.relations_found as int)
}

/// The report that the seed `name` is being resolved.
pub open spec fn resolving_view(name: Seq<char>) -> (ExtractionPhase, Seq<char>, int, int) {
    (ExtractionPhase::Resolving, "Resolving "@ + quoted(name), 0, 0)
}

/// The report of `total` passages found so far.
pub open spec fn searching_view(total: int, e: int, r: int) -> (ExtractionPhase, Seq<char>, int, int) {
    (ExtractionPhase::Searching, "Found "@ + int_decimal(total) + " passages"@, e, r)
}

/// The report that the seed is being built.
pub open spec fn building_view(name: Seq<char>, e: int, r: int) -> (ExtractionPhase, Seq<char>, int, int) {
    (ExtractionPhase::Extracting, "Building "@ + quoted(name), e, r)
}

/// The report after batch `index` (from zero) of `total`.
pub open spec fn batch_view(index: int, total: int, e: int, r: int) -> (ExtractionPhase, Seq<char>, int, int) {
    (ExtractionPhase::Extracting, "Batch "@ + int_decimal(index + 1) + seq!['/'] + int_decimal(total), e, r)
}

/// The report that neighbour `index` (from zero) of `count` is enriched.
pub open spec fn enriching_view(name: Seq<char>, index: int, count: int, e: int, r: int) -> (ExtractionPhase, Seq<char>, int, int) {
    (
        ExtractionPhase::Enriching,
        "Enriching "@ + quoted(name) + " ("@ + int_decimal(index + 1) + seq!['/'] + int_decimal(count) + seq![')'],
        e,
        r,
    )
}

/// The report that no passage mentions the seed.
pub open spec fn empty_view(name: Seq<char>) -> (ExtractionPhase, Seq<char>, int, int) {
    (ExtractionPhase::Empty, "No passages found for "@ + quoted(name), 0, 0)
}

/// The final report of a run.
pub open spec fn done_view(e: int, r: int) -> (ExtractionPhase, Seq<char>, int, int) {
    (ExtractionPhase::Done, "Created "@ + int_decimal(e) + " entities, "@ + int_decimal(r) + " relations"@, e, r)
}

fn push_quoted(out: &mut Vec<char>, s: &str)
    ensures
        final(out)@ == old(out)@ + quoted(s@),
{
    out.push('"');
    extend_str(out, s);
    out.push('"');
    assert(final(out)@ =~= old(out)@ + quoted(s@));
}

/// The report that the seed name is being resolved.
pub fn resolving_progress(name: &str) -> (p: ExtractionProgress)
    ensures
        p.phase == ExtractionPhase::Resolving,
        p.detail@ == "Resolving "@ + quoted(name@),
        p.entities_found == 0 && p.relations_found == 0,
        pview(p) == resolving_view(name@),
{
    let mut d: Vec<char> = Vec::new();
    extend_str(&mut d, "Resolving ");
    push_quoted(&mut d, name);
    ExtractionProgress { phase: ExtractionPhase::Resolving, detail: string_of(&d), entities_found: 0, relations_found: 0 }
}

/// The report of how many passages were found so far.
pub fn searching_progress(total: usize, entities: usize, relations: usize) -> (p: ExtractionProgress)
    ensures
        p.phase == ExtractionPhase::Searching,
        p.detail@ == "Found "@ + int_decimal(total as int) + " passages"@,
        p.entities_found == entities && p.relations_found == relations,
        pview(p) == searching_view(total as int, entities as int, relations as int),
{
    let mut d: Vec<char> = Vec::new();
    extend_str(&mut d, "Found ");
    push_usize_decimal(&mut d, total);
    extend_str(&mut d, " passages");
    ExtractionProgress { phase: ExtractionPhase::Searching, detail: string_of(&d), entities_found: entities, relations_found: relations }
}

/// The report that the seed entity is being built.
pub fn building_progress(name: &str, entities: usize, relations: usize) -> (p: ExtractionProgress)
    ensures
        p.phase == ExtractionPhase::Extracting,
        p.detail@ == "Building "@ + quoted(name@),
        p.entities_found == entities && p.relations_found == relations,
        pview(p) == building_view(name@, entities as int, relations as int),
{
    let mut d: Vec<char> = Vec::new();
    extend_str(&mut d, "Building ");
    push_quoted(&mut d, name);
    ExtractionProgress { phase: ExtractionPhase::Extracting, detail: string_of(&d), entities_found: entities, relations_found: relations }
}

/// The report after batch `index` (from zero) of `total`.
pub fn batch_progress(index: usize, total: usize, entities: usize, relations: usize) -> (p: ExtractionProgress)
    requires
        index < total,
    ensures
        p.phase == ExtractionPhase::Extracting,
        p.detail@ == "Batch "@ + int_decimal(index + 1) + seq!['/'] + int_decimal(total as int),
        p.entities_found == entities && p.relations_found == relations,
        pview(p) == batch_view(index as int, total as int, entities as int, relations as int),
{
    let mut d: Vec<char> = Vec::new();
    extend_str(&mut d, "Batch ");
    push_usize_decimal(&mut d, index + 1);
    d.push('/');
    push_usize_decimal(&mut d, total);
    ExtractionProgress { phase: ExtractionPhase::Extracting, detail: string_of(&d), entities_found: entities, relations_found: relations }
}

/// The report that neighbour `index` (from zero) of `count` is being
/// enriched.
pub fn enriching_progress(name: &str, index: usize, count: usize, entities: usize, relations: usize) -> (p: ExtractionProgress)
    requires
        index < count,
    ensures
        p.phase == ExtractionPhase::Enriching,
        p.detail@ == "Enriching "@ + quoted(name@) + " ("@ + int_decimal(index + 1) + seq!['/'] + int_decimal(count as int) + seq![')'],
        p.entities_found == entities && p.relations_found == relations,
        pview(p) == enriching_view(name@, index as int, count as int, entities as int, relations as int),
{
    let mut d: Vec<char> = Vec::new();
    extend_str(&mut d, "Enriching ");
    push_quoted(&mut d, name);
    extend_str(&mut d, " (");
    push_usize_decimal(&mut d, index + 1);
    d.push('/');
    push_usize_decimal(&mut d, count);
    d.push(')');
    ExtractionProgress { phase: ExtractionPhase::Enriching, detail: string_of(&d), entities_found: entities, relations_found: relations }
}

/// The report that no passage mentions the seed.
pub fn empty_progress(name: &str) -> (p: ExtractionProgress)
    ensures
        p.phase == ExtractionPhase::Empty,
        p.detail@ == "No passages found for "@ + quoted(name@),
        p.entities_found == 0 && p.relations_found == 0,
        pview(p) == empty_view(name@),
{
    let mut d: Vec<char> = Vec::new();
    extend_str(&mut d, "No passages found for ");
    push_quoted(&mut d, name);
    ExtractionProgress { phase: ExtractionPhase::Empty, detail: string_of(&d), entities_found: 0, relations_found: 0 }
}

/// The final report of a run.
pub fn done_progress(entities: usize, relations: usize) -> (p: ExtractionProgress)
    ensures
        p.phase == ExtractionPhase::Done,
        p.detail@ == "Created "@ + int_decimal(entities as int) + " entities, "@ + int_decimal(relations as int) + " relations"@,
        p.entities_found == entities && p.relations_found == relations,
        pview(p) == done_view(entities as int, relations as int),
{
    let mut d: Vec<char> = Vec::new();
    extend_str(&mut d, "Created ");
    push_usize_decimal(&mut d, entities);
    extend_str(&mut d, " entities, ");
    push_usize_decimal(&mut d, relations);
    extend_str(&mut d, " relations");
    ExtractionProgress { phase: ExtractionPhase::Done, detail: string_of(&d), entities_found: entities, relations_found: relations }
}

// ── Enrichment ─────────────────────────────────────────────────────────────

/// The text kept so far after seeing `cand`: a non-blank candidate longer
/// in bytes than the best so far (or the first one) replaces it.
pub open spec fn longer_spec(best: Option<Seq<char>>, cand: Option<Seq<char>>) -> Option<Seq<char>> {
    match cand {
        Some(c) => if trim(c).len() > 0 && match best {
            Some(b) => utf8_len_of(c) > utf8_len_of(b),
            None => true,
        } {
            Some(c)
        } else {
            best
        },
        None => best,
    }
}

/// Keeps the longest non-blank text of the profile replies.
pub fn keep_longer(best: Option<String>, cand: Option<String>) -> (r: Option<String>)
    ensures
        crate::agent::prompt::opt_string_view(r) == longer_spec(crate::agent::prompt::opt_string_view(best), crate::agent::prompt::opt_string_view(cand)),
{
    match cand {
        Some(c) => {
            let cc = chars_of(c.as_str());
            if is_blank(&cc) {
                return best;
            }
            let take = match &best {
                Some(b) => {
                    let bc = chars_of(b.as_str());
                    utf8_len_exact(&cc) > utf8_len_exact(&bc)
                },
                None => true,
            };
            if take {
                Some(c)
            } else {
                best
            }
        },
        None => best,
    }
}

/// The UTF-8 byte length of `s`.
fn utf8_len_exact(s: &Vec<char>) -> (r: u128)
    ensures
        r == utf8_len_of(s@),
{
    let mut n: u128 = 0;
    let mut i: usize = 0;
    while i < s.len()
        invariant
            i <= s@.len(),
            n == utf8_len_of(s@.take(i as int)),
            n <= 4 * i,
        decreases s@.len() - i,
    {
        assert(s@.take(i + 1).drop_last() =~= s@.take(i as int));
        let u = s[i] as u32;
        let l: u128 = if u < 0x80 {
            1
        } else if u < 0x800 {
            2
        } else if u < 0x10000 {
            3
        } else {
            4
        };
        n = n + l;
        i += 1;
    }
    assert(s@.take(i as int) =~= s@);
    n
}

// ── Model stand-ins ────────────────────────────────────────────────────────

/// One message of a chat with the model.
#[derive(Debug, Clone)]
pub struct ChatMessage {
    pub role: String,
    pub content: String,
}

/// A model that always answers with the same text.
#[derive(Debug, Clone)]
pub struct MockLlm {
    pub response: String,
}

impl MockLlm {
    /// The provider name it reports.
    pub fn provider_type(&self) -> (r: &'static str)
        ensures
            r@ == "mock_extraction"@,
    {
        "mock_extraction"
    }

    /// Its answer to any chat.
    pub fn reply(&self) -> (r: String)
        ensures
            r == self.response,
    {
        self.response.clone()
    }
}

/// A vector store that returns fixed results for every search.
#[derive(Debug, Clone)]
pub struct MockVectorStore {
    pub results: Vec<SearchResult>,
}

impl MockVectorStore {
    /// The results of any search.
    pub fn search_results(&self) -> (r: &Vec<SearchResult>)
        ensures
            r == &self.results,
    {
        &self.results
    }
}

/// A model that answers seed prompts (those asking for `"relations"`) with
/// one text and profile prompts with another.
#[derive(Debug, Clone)]
pub struct BranchingLlm {
    pub seed: String,
    pub profile: String,
}

/// The marker of a prompt that asks for relations.
pub const RELATIONS_KEY: &'static str = "\"relations\"";

impl BranchingLlm {
    /// The provider name it reports.
    pub fn provider_type(&self) -> (r: &'static str)
        ensures
            r@ == "mock_branching"@,
    {
        "mock_branching"
    }

    /// Its answer: the seed text when the first message asks for relations,
    /// else the profile text.
    pub fn reply(&self, messages: &[ChatMessage]) -> (r: String)
        ensures
            r == if messages@.len() > 0 && contains_seq(messages@[0].content@, RELATIONS_KEY@) {
                self.seed
            } else {
                self.profile
            },
    {
        let is_seed = messages.len() > 0 && contains_str(messages[0].content.as_str(), RELATIONS_KEY);
        if is_seed {
            self.seed.clone()
        } else {
            self.profile.clone()
        }
    }
}

} // verus!
