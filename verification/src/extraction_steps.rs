//! The decisions of an extraction run, as steps from plain values to plain
//! values: what each stored batch adds up to, which report follows each
//! event, when neighbours are enriched, and which text an enrichment keeps.
//! The application performs the calls and hands the outcomes back.
use vstd::prelude::*;

use crate::agent::prompt::opt_string_view;
use crate::extraction::{
    batch_progress, batch_view, building_progress, building_view, done_progress, done_view, empty_progress,
    empty_view, enriching_progress, enriching_view, keep_longer, longer_spec, pview, resolving_progress,
    resolving_view, searching_progress, searching_view, ExtractionPhase, ExtractionProgress,
};

verus! {

// ── Storing a batch ────────────────────────────────────────────────────────

/// How many of the relations `rs` created their related entity; each
/// relation is (entity created, may link, linked).
pub open spec fn rel_created(rs: Seq<(bool, bool, bool)>) -> int
    decreases rs.len(),
{
    if rs.len() == 0 {
        0
    } else {
        rel_created(rs.drop_last()) + if rs.last().0 {
            1int
        } else {
            0int
        }
    }
}

/// How many of the relations `rs` were linked where linking is allowed.
pub open spec fn rel_linked(rs: Seq<(bool, bool, bool)>) -> int
    decreases rs.len(),
{
    if rs.len() == 0 {
        0
    } else {
        rel_linked(rs.drop_last()) + if rs.last().1 && rs.last().2 {
            1int
        } else {
            0int
        }
    }
}

/// Entities created by a stored batch: every extracted entity that was new,
/// and every related entity that was new. Each outcome is (entity created,
/// its relations).
pub open spec fn tally_entities(o: Seq<(bool, Vec<(bool, bool, bool)>)>) -> int
    decreases o.len(),
{
    if o.len() == 0 {
        0
    } else {
        tally_entities(o.drop_last()) + (if o.last().0 {
            1int
        } else {
            0int
        }) + rel_created(o.last().1@)
    }
}

/// Relations created by a stored batch: those linked among the ones
/// `may_link` allows.
pub open spec fn tally_relations(o: Seq<(bool, Vec<(bool, bool, bool)>)>) -> int
    decreases o.len(),
{
    if o.len() == 0 {
        0
    } else {
        tally_relations(o.drop_last()) + rel_linked(o.last().1@)
    }
}

/// Number of entities and relations described by the outcomes.
pub open spec fn outcome_items(o: Seq<(bool, Vec<(bool, bool, bool)>)>) -> int
    decreases o.len(),
{
    if o.len() == 0 {
        0
    } else {
        outcome_items(o.drop_last()) + 1 + o.last().1@.len()
    }
}

proof fn lemma_rel_bounds(rs: Seq<(bool, bool, bool)>)
    ensures
        0 <= rel_created(rs) <= rs.len(),
        0 <= rel_linked(rs) <= rs.len(),
    decreases rs.len(),
{
    if rs.len() > 0 {
        lemma_rel_bounds(rs.drop_last());
    }
}

proof fn lemma_tally_bounds(o: Seq<(bool, Vec<(bool, bool, bool)>)>)
    ensures
        0 <= tally_entities(o) <= outcome_items(o),
        0 <= tally_relations(o) <= outcome_items(o),
    decreases o.len(),
{
    if o.len() > 0 {
        lemma_tally_bounds(o.drop_last());
        lemma_rel_bounds(o.last().1@);
    }
}

proof fn lemma_items_grow(o: Seq<(bool, Vec<(bool, bool, bool)>)>, i: int)
    requires
        0 <= i <= o.len(),
    ensures
        outcome_items(o.take(i)) <= outcome_items(o),
    decreases o.len() - i,
{
    if i < o.len() {
        lemma_items_grow(o, i + 1);
        assert(o.take(i + 1).drop_last() =~= o.take(i));
    } else {
        assert(o.take(i) =~= o);
    }
}

/// Adds up what a stored batch created: the entities that were new (the
/// extracted ones and their related ones) and the relations that were
/// linked among those allowed.
pub fn persist_tally(outcomes: &[(bool, Vec<(bool, bool, bool)>)]) -> (r: (usize, usize))
    requires
        outcome_items(outcomes@) <= usize::MAX,
    ensures
        r.0 == tally_entities(outcomes@),
        r.1 == tally_relations(outcomes@),
{
    let ghost o = outcomes@;
    let mut e: usize = 0;
    let mut rl: usize = 0;
    let mut i: usize = 0;
    while i < outcomes.len()
        invariant
            i <= o.len(),
            o == outcomes@,
            outcome_items(o) <= usize::MAX,
            e == tally_entities(o.take(i as int)),
            rl == tally_relations(o.take(i as int)),
        decreases o.len() - i,
    {
        proof {
            lemma_items_grow(o, i + 1);
            lemma_tally_bounds(o.take(i as int));
            assert(o.take(i + 1).drop_last() =~= o.take(i as int));
            assert(o.take(i + 1).last() == o[i as int]);
        }
        let rs = &outcomes[i].1;
        let ghost base = outcome_items(o.take(i as int));
        if outcomes[i].0 {
            e += 1;
        }
        let mut j: usize = 0;
        while j < rs.len()
            invariant
                j <= rs@.len(),
                rs@ == o[i as int].1@,
                i < o.len(),
                o == outcomes@,
                outcome_items(o) <= usize::MAX,
                base == outcome_items(o.take(i as int)),
                base + 1 + rs@.len() == outcome_items(o.take(i + 1)),
                outcome_items(o.take(i + 1)) <= outcome_items(o),
                e == tally_entities(o.take(i as int)) + (if o[i as int].0 { 1int } else { 0int }) + rel_created(rs@.take(j as int)),
                rl == tally_relations(o.take(i as int)) + rel_linked(rs@.take(j as int)),
                tally_entities(o.take(i as int)) <= base,
                tally_relations(o.take(i as int)) <= base,
            decreases rs@.len() - j,
        {
            proof {
                assert(rs@.take(j + 1).drop_last() =~= rs@.take(j as int));
                lemma_rel_bounds(rs@.take(j as int));
            }
            let (created, may, linked) = rs[j];
            if created {
                e += 1;
            }
            if may && linked {
                rl += 1;
            }
            j += 1;
        }
        assert(rs@.take(j as int) =~= rs@);
        i += 1;
    }
    assert(o.take(i as int) =~= o);
    (e, rl)
}

// ── Extraction over a whole collection ─────────────────────────────────────

/// The entities and relations created by the first `k` batches.
pub open spec fn running(b: Seq<(usize, usize)>, k: int) -> (int, int)
    decreases k,
{
    if k <= 0 || b.len() == 0 {
        (0, 0)
    } else if k > b.len() {
        running(b, b.len() as int)
    } else {
        let p = running(b, k - 1);
        (p.0 + b[k - 1].0, p.1 + b[k - 1].1)
    }
}

proof fn lemma_running_grows(b: Seq<(usize, usize)>, k: int, m: int)
    requires
        0 <= k <= m <= b.len(),
    ensures
        0 <= running(b, k).0 <= running(b, m).0,
        0 <= running(b, k).1 <= running(b, m).1,
    decreases m - k,
{
    if k < m {
        lemma_running_grows(b, k, m - 1);
    } else {
        lemma_running_nonneg(b, k);
    }
}

proof fn lemma_running_nonneg(b: Seq<(usize, usize)>, k: int)
    requires
        0 <= k <= b.len(),
    ensures
        0 <= running(b, k).0,
        0 <= running(b, k).1,
    decreases k,
{
    if k > 0 {
        lemma_running_nonneg(b, k - 1);
    }
}

/// The report after batch `index` of `total`, given the totals before it
/// and what the batch created; returns the report and the new totals.
pub fn collection_step(index: usize, total: usize, before: (usize, usize), batch: (usize, usize)) -> (r: (ExtractionProgress, usize, usize))
    requires
        index < total,
        before.0 + batch.0 <= usize::MAX,
        before.1 + batch.1 <= usize::MAX,
    ensures
        r.1 == before.0 + batch.0,
        r.2 == before.1 + batch.1,
        pview(r.0) == batch_view(index as int, total as int, r.1 as int, r.2 as int),
{
    let e = before.0 + batch.0;
    let rl = before.1 + batch.1;
    (batch_progress(index, total, e, rl), e, rl)
}

/// The reports of a whole extraction over a collection whose batches created
/// `batches` (entities, relations), made by one `collection_step` per batch:
/// one report after each batch with the running totals, then the final one
/// with the totals. No batch, no report, and nothing created.
pub fn collection_progress(batches: &[(usize, usize)]) -> (r: (Vec<ExtractionProgress>, usize, usize))
    requires
        running(batches@, batches@.len() as int).0 <= usize::MAX,
        running(batches@, batches@.len() as int).1 <= usize::MAX,
    ensures
        r.1 == running(batches@, batches@.len() as int).0,
        r.2 == running(batches@, batches@.len() as int).1,
        batches@.len() == 0 ==> r.0@.len() == 0,
        batches@.len() > 0 ==> r.0@.len() == batches@.len() + 1,
        batches@.len() > 0 ==> forall|k: int| 0 <= k < batches@.len() ==> pview(#[trigger] r.0@[k]) == batch_view(
            k,
            batches@.len() as int,
            running(batches@, k + 1).0,
            running(batches@, k + 1).1,
        ),
        batches@.len() > 0 ==> pview(r.0@[batches@.len() as int]) == done_view(r.1 as int, r.2 as int),
{
    let ghost b = batches@;
    let n = batches.len();
    let mut out: Vec<ExtractionProgress> = Vec::new();
    if n == 0 {
        return (out, 0, 0);
    }
    let mut e: usize = 0;
    let mut rl: usize = 0;
    let mut k: usize = 0;
    while k < n
        invariant
            n == b.len(),
            b == batches@,
            k <= n,
            running(b, n as int).0 <= usize::MAX,
            running(b, n as int).1 <= usize::MAX,
            e == running(b, k as int).0,
            rl == running(b, k as int).1,
            out@.len() == k,
            forall|j: int| 0 <= j < k ==> pview(#[trigger] out@[j]) == batch_view(j, n as int, running(b, j + 1).0, running(b, j + 1).1),
        decreases n - k,
    {
        proof {
            lemma_running_grows(b, k + 1, n as int);
        }
        let (p, e2, r2) = collection_step(k, n, (e, rl), batches[k]);
        out.push(p);
        e = e2;
        rl = r2;
        k += 1;
    }
    out.push(done_progress(e, rl));
    (out, e, rl)
}

// ── Seed-anchored extraction ───────────────────────────────────────────────

/// What a seed-anchored run has counted so far: entities and relations
/// created, passages found, and how many neighbours are being enriched.
#[derive(Debug, Clone, Copy, PartialEq, Eq, Structural)]
pub struct SeedState {
    pub entities: usize,
    pub relations: usize,
    pub passages: usize,
    pub enrich_total: usize,
}

/// What happened in a seed-anchored run.
#[derive(Debug, Clone)]
pub enum SeedEvent {
    /// The run begins.
    Start,
    /// The search of one collection found `found` passages.
    Passages { found: usize },
    /// The model answered for one batch of passages.
    BatchReplied,
    /// One batch was stored, creating so many entities and relations.
    BatchStored { entities: usize, relations: usize },
    /// Every collection was searched; whether enrichment is switched on,
    /// how many new neighbours wait, and the cap on enrichment.
    CollectionsDone { enrich_enabled: bool, queue: usize, limit: usize },
    /// Neighbour `index` (from zero) is about to be enriched.
    Enriching { index: usize, neighbour: String },
    /// Every chosen neighbour was enriched.
    EnrichmentDone,
}

/// What the application does next.
#[derive(Debug, Clone, Copy, PartialEq, Eq, Structural)]
pub enum SeedAction {
    /// Read the collections of the campaign and search each.
    ResolveCollections,
    /// Nothing found in this collection: go on to the next.
    SkipCollection,
    /// Batch the passages and ask the model for each batch.
    Extract,
    /// Store the parsed answer.
    Store,
    /// Go on with the next batch or collection.
    Continue,
    /// Enrich the first `count` new neighbours.
    Enrich { count: usize },
    /// Enrich the announced neighbour.
    EnrichNeighbour,
    /// The run is over.
    Finish,
}

/// The last report of a run: `Empty` when no passage was found, else the
/// totals.
pub open spec fn finish_view(s: SeedState, seed: Seq<char>) -> (ExtractionPhase, Seq<char>, int, int) {
    if s.passages == 0 {
        empty_view(seed)
    } else {
        done_view(s.entities as int, s.relations as int)
    }
}

/// A report, if any, as plain values.
pub open spec fn opt_pview(p: Option<ExtractionProgress>) -> Option<(ExtractionPhase, Seq<char>, int, int)> {
    match p {
        Some(p) => Some(pview(p)),
        None => None,
    }
}

/// The step of a seed-anchored run for `seed`: the next state, the report
/// to emit, and what to do.
pub open spec fn seed_next(s: SeedState, e: SeedEvent, seed: Seq<char>) -> (SeedState, Option<(ExtractionPhase, Seq<char>, int, int)>, SeedAction) {
    match e {
        SeedEvent::Start => (s, Some(resolving_view(seed)), SeedAction::ResolveCollections),
        SeedEvent::Passages { found } => if found == 0 {
            (s, None, SeedAction::SkipCollection)
        } else {
            let s2 = SeedState { passages: (s.passages + found) as usize, ..s };
            (s2, Some(searching_view(s2.passages as int, s.entities as int, s.relations as int)), SeedAction::Extract)
        },
        SeedEvent::BatchReplied => (s, Some(building_view(seed, s.entities as int, s.relations as int)), SeedAction::Store),
        SeedEvent::BatchStored { entities, relations } => (
            SeedState { entities: (s.entities + entities) as usize, relations: (s.relations + relations) as usize, ..s },
            None,
            SeedAction::Continue,
        ),
        SeedEvent::CollectionsDone { enrich_enabled, queue, limit } => {
            let c = if queue < limit {
                queue
            } else {
                limit
            };
            if s.passages > 0 && enrich_enabled && c > 0 {
                (SeedState { enrich_total: c, ..s }, None, SeedAction::Enrich { count: c })
            } else {
                (s, Some(finish_view(s, seed)), SeedAction::Finish)
            }
        },
        SeedEvent::Enriching { index, neighbour } => (
            s,
            Some(enriching_view(neighbour@, index as int, s.enrich_total as int, s.entities as int, s.relations as int)),
            SeedAction::EnrichNeighbour,
        ),
        SeedEvent::EnrichmentDone => (s, Some(finish_view(s, seed)), SeedAction::Finish),
    }
}

/// What an event of a seed-anchored run asks of the application.
pub open spec fn seed_event_ok(s: SeedState, e: SeedEvent) -> bool {
    match e {
        SeedEvent::Passages { found } => s.passages + found <= usize::MAX,
        SeedEvent::BatchStored { entities, relations } => s.entities + entities <= usize::MAX && s.relations
            + relations <= usize::MAX,
        SeedEvent::Enriching { index, .. } => index < s.enrich_total,
        _ => true,
    }
}

/// One step of a seed-anchored run. The run opens with the resolving
/// report; it closes with the empty report exactly when no passage was
/// found, else with the totals; neighbours are enriched only when passages
/// were found and enrichment is on, and then at most the smaller of the
/// waiting neighbours and the cap.
pub fn seed_step(state: SeedState, event: &SeedEvent, seed: &str) -> (r: (SeedState, Option<ExtractionProgress>, SeedAction))
    requires
        seed_event_ok(state, *event),
    ensures
        (r.0, opt_pview(r.1), r.2) == seed_next(state, *event, seed@),
        *event is Start ==> opt_pview(r.1) == Some(resolving_view(seed@)),
        r.2 is Finish ==> (opt_pview(r.1) == Some(empty_view(seed@)) <==> state.passages == 0),
        r.2 is Finish && state.passages > 0 ==> opt_pview(r.1) == Some(done_view(state.entities as int, state.relations as int)),
        r.2 matches SeedAction::Enrich { count } ==> (*event matches SeedEvent::CollectionsDone { enrich_enabled, queue, limit }
            && state.passages > 0 && enrich_enabled && 0 < count && count <= queue && count <= limit && (count == queue
            || count == limit)),
{
    match event {
        SeedEvent::Start => (state, Some(resolving_progress(seed)), SeedAction::ResolveCollections),
        SeedEvent::Passages { found } => {
            if *found == 0 {
                (state, None, SeedAction::SkipCollection)
            } else {
                let s2 = SeedState { passages: state.passages + *found, ..state };
                (s2, Some(searching_progress(s2.passages, state.entities, state.relations)), SeedAction::Extract)
            }
        },
        SeedEvent::BatchReplied => (state, Some(building_progress(seed, state.entities, state.relations)), SeedAction::Store),
        SeedEvent::BatchStored { entities, relations } => (
            SeedState { entities: state.entities + *entities, relations: state.relations + *relations, ..state },
            None,
            SeedAction::Continue,
        ),
        SeedEvent::CollectionsDone { enrich_enabled, queue, limit } => {
            let c = if *queue < *limit {
                *queue
            } else {
                *limit
            };
            if state.passages > 0 && *enrich_enabled && c > 0 {
                (SeedState { enrich_total: c, ..state }, None, SeedAction::Enrich { count: c })
            } else {
                let p = finish_report(state, seed);
                (state, Some(p), SeedAction::Finish)
            }
        },
        SeedEvent::Enriching { index, neighbour } => (
            state,
            Some(enriching_progress(neighbour.as_str(), *index, state.enrich_total, state.entities, state.relations)),
            SeedAction::EnrichNeighbour,
        ),
        SeedEvent::EnrichmentDone => {
            let p = finish_report(state, seed);
            (state, Some(p), SeedAction::Finish)
        },
    }
}

fn finish_report(s: SeedState, seed: &str) -> (p: ExtractionProgress)
    ensures
        pview(p) == finish_view(s, seed@),
{
    if s.passages == 0 {
        empty_progress(seed)
    } else {
        done_progress(s.entities, s.relations)
    }
}

// ── Enriching a neighbour ──────────────────────────────────────────────────

/// The best of the answers for one field (`summary` when `first`, else
/// `notes`): the longest non-blank one, the earliest among equals.
pub open spec fn best_answer(answers: Seq<(Option<String>, Option<String>)>, first: bool) -> Option<Seq<char>>
    decreases answers.len(),
{
    if answers.len() == 0 {
        None
    } else {
        let a = answers.last();
        longer_spec(best_answer(answers.drop_last(), first), opt_string_view(if first { a.0 } else { a.1 }))
    }
}

/// `a` when it is there, else `b`.
pub open spec fn or_else(a: Option<Seq<char>>, b: Option<Seq<char>>) -> Option<Seq<char>> {
    match a {
        Some(x) => Some(x),
        None => b,
    }
}

/// The new summary and notes of a neighbour from the model's profile
/// answers: the longest non-blank answer of each field wins, a field with
/// no usable answer keeps its old value, and `None` (nothing changes) when
/// neither field has a usable answer.
pub fn enrichment_update(
    old_summary: &Option<String>,
    old_notes: &Option<String>,
    answers: &[(Option<String>, Option<String>)],
) -> (r: Option<(Option<String>, Option<String>)>)
    ensures
        (best_answer(answers@, true) is None && best_answer(answers@, false) is None) <==> r is None,
        r matches Some((s, n)) ==> opt_string_view(s) == or_else(best_answer(answers@, true), opt_string_view(*old_summary))
            && opt_string_view(n) == or_else(best_answer(answers@, false), opt_string_view(*old_notes)),
{
    let mut best_s: Option<String> = None;
    let mut best_n: Option<String> = None;
    let mut i: usize = 0;
    while i < answers.len()
        invariant
            i <= answers@.len(),
            opt_string_view(best_s) == best_answer(answers@.take(i as int), true),
            opt_string_view(best_n) == best_answer(answers@.take(i as int), false),
        decreases answers@.len() - i,
    {
        proof {
            assert(answers@.take(i + 1).drop_last() =~= answers@.take(i as int));
            assert(answers@.take(i + 1).last() == answers@[i as int]);
        }
        best_s = keep_longer(best_s, answers[i].0.clone());
        best_n = keep_longer(best_n, answers[i].1.clone());
        i += 1;
    }
    assert(answers@.take(i as int) =~= answers@);
    if best_s.is_none() && best_n.is_none() {
        return None;
    }
    let s = match best_s {
        Some(x) => Some(x),
        None => old_summary.clone(),
    };
    let n = match best_n {
        Some(x) => Some(x),
        None => old_notes.clone(),
    };
    Some((s, n))
}

// ── A whole seed-anchored run ──────────────────────────────────────────────

/// Passages found over the first collections; each collection is (passages
/// found, what each stored batch created).
pub open spec fn found_total(c: Seq<(usize, Vec<(usize, usize)>)>) -> int
    decreases c.len(),
{
    if c.len() == 0 {
        0
    } else {
        found_total(c.drop_last()) + c.last().0
    }
}

/// Entities (`first`) or relations created over the collections that had
/// passages.
pub open spec fn created_total(c: Seq<(usize, Vec<(usize, usize)>)>, first: bool) -> int
    decreases c.len(),
{
    if c.len() == 0 {
        0
    } else {
        let b = c.last().1@;
        let r = running(b, b.len() as int);
        created_total(c.drop_last(), first) + if c.last().0 > 0 {
            if first {
                r.0
            } else {
                r.1
            }
        } else {
            0
        }
    }
}

/// How many reports are of the enriching phase.
pub open spec fn enriching_count(v: Seq<ExtractionProgress>) -> int
    decreases v.len(),
{
    if v.len() == 0 {
        0
    } else {
        enriching_count(v.drop_last()) + if v.last().phase == ExtractionPhase::Enriching {
            1int
        } else {
            0int
        }
    }
}

proof fn lemma_totals_grow(c: Seq<(usize, Vec<(usize, usize)>)>, i: int)
    requires
        0 <= i <= c.len(),
    ensures
        0 <= found_total(c.take(i)) <= found_total(c),
        0 <= created_total(c.take(i), true) <= created_total(c, true),
        0 <= created_total(c.take(i), false) <= created_total(c, false),
    decreases c.len() - i,
{
    if i < c.len() {
        lemma_totals_grow(c, i + 1);
        assert(c.take(i + 1).drop_last() =~= c.take(i));
        assert(c.take(i + 1).last() == c[i]);
        lemma_totals_nonneg(c.take(i));
        let b = c[i].1@;
        lemma_running_grows(b, 0, b.len() as int);
    } else {
        assert(c.take(i) =~= c);
        lemma_totals_nonneg(c);
    }
}

proof fn lemma_totals_nonneg(c: Seq<(usize, Vec<(usize, usize)>)>)
    ensures
        0 <= found_total(c),
        0 <= created_total(c, true),
        0 <= created_total(c, false),
    decreases c.len(),
{
    if c.len() > 0 {
        lemma_totals_nonneg(c.drop_last());
        let b = c.last().1@;
        lemma_running_grows(b, 0, b.len() as int);
    }
}

fn push_report(out: &mut Vec<ExtractionProgress>, p: Option<ExtractionProgress>)
    ensures
        match p {
            Some(q) => final(out)@ == old(out)@.push(q),
            None => final(out)@ == old(out)@,
        },
{
    match p {
        Some(q) => out.push(q),
        None => {},
    }
}

/// The reports of a whole seed-anchored run for `seed`, given what each
/// linked collection yielded (passages found, and what each stored batch
/// created), whether enrichment is on, the new neighbours and the cap: the
/// run opens with the resolving report; it closes with the empty report
/// when no collection yielded a passage, else with the totals; it enriches
/// the smaller of the neighbours and the cap when passages were found and
/// enrichment is on, and no neighbour otherwise. The final state holds the
/// totals.
pub fn seed_reports(
    seed: &str,
    collections: &[(usize, Vec<(usize, usize)>)],
    enrich_enabled: bool,
    neighbours: &[String],
    limit: usize,
) -> (r: (Vec<ExtractionProgress>, SeedState))
    requires
        found_total(collections@) <= usize::MAX,
        created_total(collections@, true) <= usize::MAX,
        created_total(collections@, false) <= usize::MAX,
    ensures
        r.0@.len() >= 2,
        pview(r.0@[0]) == resolving_view(seed@),
        found_total(collections@) == 0 ==> pview(r.0@.last()) == empty_view(seed@),
        found_total(collections@) > 0 ==> pview(r.0@.last()) == done_view(
            created_total(collections@, true),
            created_total(collections@, false),
        ),
        r.1.passages == found_total(collections@),
        r.1.entities == created_total(collections@, true),
        r.1.relations == created_total(collections@, false),
        enriching_count(r.0@) == (if found_total(collections@) > 0 && enrich_enabled {
            if neighbours@.len() < limit {
                neighbours@.len() as int
            } else {
                limit as int
            }
        } else {
            0
        }),
{
    let ghost c = collections@;
    let mut out: Vec<ExtractionProgress> = Vec::new();
    let st0 = SeedState { entities: 0, relations: 0, passages: 0, enrich_total: 0 };
    let (mut st, p, _) = seed_step(st0, &SeedEvent::Start, seed);
    push_report(&mut out, p);
    assert(out@.drop_last() =~= Seq::<ExtractionProgress>::empty());
    assert(out@.last().phase == ExtractionPhase::Resolving);
    assert(enriching_count(out@.drop_last()) == 0);
    let mut i: usize = 0;
    while i < collections.len()
        invariant
            i <= c.len(),
            c == collections@,
            found_total(c) <= usize::MAX,
            created_total(c, true) <= usize::MAX,
            created_total(c, false) <= usize::MAX,
            out@.len() >= 1,
            pview(out@[0]) == resolving_view(seed@),
            enriching_count(out@) == 0,
            st.passages == found_total(c.take(i as int)),
            st.entities == created_total(c.take(i as int), true),
            st.relations == created_total(c.take(i as int), false),
        decreases c.len() - i,
    {
        proof {
            lemma_totals_grow(c, i + 1);
            assert(c.take(i + 1).drop_last() =~= c.take(i as int));
            assert(c.take(i + 1).last() == c[i as int]);
        }
        let found = collections[i].0;
        let (st2, p, a) = seed_step(st, &SeedEvent::Passages { found }, seed);
        let ghost before = out@;
        push_report(&mut out, p);
        proof {
            if out@.len() > before.len() {
                assert(out@.drop_last() =~= before);
                assert(out@[0] == before[0]);
            }
        }
        st = st2;
        if found > 0 {
            let batches = &collections[i].1;
            let ghost b = batches@;
            let mut j: usize = 0;
            while j < batches.len()
                invariant
                    j <= b.len(),
                    b == batches@,
                    b == c[i as int].1@,
                    i < c.len(),
                    c == collections@,
                    found > 0,
                    c[i as int].0 == found,
                    created_total(c, true) <= usize::MAX,
                    created_total(c, false) <= usize::MAX,
                    created_total(c.take(i + 1), true) <= created_total(c, true),
                    created_total(c.take(i + 1), false) <= created_total(c, false),
                    created_total(c.take(i + 1), true) == created_total(c.take(i as int), true) + running(b, b.len() as int).0,
                    created_total(c.take(i + 1), false) == created_total(c.take(i as int), false) + running(b, b.len() as int).1,
                    out@.len() >= 1,
                    pview(out@[0]) == resolving_view(seed@),
                    enriching_count(out@) == 0,
                    st.passages == found_total(c.take(i + 1)),
                    st.entities == created_total(c.take(i as int), true) + running(b, j as int).0,
                    st.relations == created_total(c.take(i as int), false) + running(b, j as int).1,
                decreases b.len() - j,
            {
                proof {
                    lemma_running_grows(b, j + 1, b.len() as int);
                }
                let (st3, p, _) = seed_step(st, &SeedEvent::BatchReplied, seed);
                let ghost before = out@;
                push_report(&mut out, p);
                proof {
                    assert(out@.drop_last() =~= before);
                    assert(out@[0] == before[0]);
                }
                let (ec, rc) = batches[j];
                let (st4, _, _) = seed_step(st3, &SeedEvent::BatchStored { entities: ec, relations: rc }, seed);
                st = st4;
                j += 1;
            }
        }
        i += 1;
    }
    proof {
        assert(c.take(i as int) =~= c);
    }
    let queue = neighbours.len();
    let (st5, p, a) = seed_step(st, &SeedEvent::CollectionsDone { enrich_enabled, queue, limit }, seed);
    st = st5;
    match a {
        SeedAction::Enrich { count } => {
            let mut k: usize = 0;
            while k < count
                invariant
                    k <= count,
                    count <= queue,
                    queue == neighbours@.len(),
                    st.enrich_total == count,
                    st.passages == found_total(c),
                    st.entities == created_total(c, true),
                    st.relations == created_total(c, false),
                    found_total(c) > 0,
                    out@.len() >= 1,
                    pview(out@[0]) == resolving_view(seed@),
                    enriching_count(out@) == k,
                decreases count - k,
            {
                let ev = SeedEvent::Enriching { index: k, neighbour: neighbours[k].clone() };
                let (st6, p, _) = seed_step(st, &ev, seed);
                let ghost before = out@;
                push_report(&mut out, p);
                proof {
                    assert(out@.drop_last() =~= before);
                    assert(out@[0] == before[0]);
                }
                st = st6;
                k += 1;
            }
            let (st7, p, _) = seed_step(st, &SeedEvent::EnrichmentDone, seed);
            let ghost before = out@;
            push_report(&mut out, p);
            proof {
                assert(out@.drop_last() =~= before);
                assert(out@[0] == before[0]);
            }
            st = st7;
        },
        _ => {
            let ghost before = out@;
            push_report(&mut out, p);
            proof {
                assert(out@.drop_last() =~= before);
                assert(out@[0] == before[0]);
            }
        },
    }
    (out, st)
}

} // verus!
