use chronacle::extraction_steps::seed_reports;
use chronacle::extraction::ExtractionPhase;
use chronacle::extraction_steps::{
    collection_progress, enrichment_update, persist_tally, seed_step, SeedAction, SeedEvent, SeedState,
};
use chronacle::wikilink::mention_edge_plan;

fn s(x: &str) -> String {
    x.to_string()
}

#[test]
fn persist_tally_counts_new_entities_and_allowed_links() {
    let outcomes = vec![
        (true, vec![(true, true, true), (false, true, false), (true, false, false)]),
        (false, vec![(false, true, true)]),
    ];
    assert_eq!(persist_tally(&outcomes), (3, 2));
    assert_eq!(persist_tally(&[]), (0, 0));
}

#[test]
fn collection_progress_reports_each_batch_then_totals() {
    let (reports, e, r) = collection_progress(&[(2, 1), (0, 3), (1, 0)]);
    assert_eq!((e, r), (3, 4));
    assert_eq!(reports.len(), 4);
    assert_eq!(reports[0].detail, "Batch 1/3");
    assert_eq!((reports[0].entities_found, reports[0].relations_found), (2, 1));
    assert_eq!(reports[1].detail, "Batch 2/3");
    assert_eq!((reports[1].entities_found, reports[1].relations_found), (2, 4));
    assert_eq!(reports[2].detail, "Batch 3/3");
    assert_eq!(reports[3].phase, ExtractionPhase::Done);
    assert_eq!(reports[3].detail, "Created 3 entities, 4 relations");
    assert!(collection_progress(&[]).0.is_empty());
}

#[test]
fn seed_run_without_passages_ends_empty() {
    let st = SeedState { entities: 0, relations: 0, passages: 0, enrich_total: 0 };
    let (st, p, a) = seed_step(st, &SeedEvent::Start, "Varn");
    assert_eq!(a, SeedAction::ResolveCollections);
    assert_eq!(p.unwrap().detail, "Resolving \"Varn\"");
    let (st, p, a) = seed_step(st, &SeedEvent::Passages { found: 0 }, "Varn");
    assert!(p.is_none());
    assert_eq!(a, SeedAction::SkipCollection);
    let (_, p, a) = seed_step(st, &SeedEvent::CollectionsDone { enrich_enabled: true, queue: 3, limit: 5 }, "Varn");
    assert_eq!(a, SeedAction::Finish);
    let p = p.unwrap();
    assert_eq!(p.phase, ExtractionPhase::Empty);
    assert_eq!(p.detail, "No passages found for \"Varn\"");
}

#[test]
fn seed_run_enriches_at_most_the_cap_then_reports_totals() {
    let st = SeedState { entities: 0, relations: 0, passages: 0, enrich_total: 0 };
    let (st, p, a) = seed_step(st, &SeedEvent::Passages { found: 4 }, "Varn");
    assert_eq!(a, SeedAction::Extract);
    assert_eq!(p.unwrap().detail, "Found 4 passages");
    let (st, p, a) = seed_step(st, &SeedEvent::BatchReplied, "Varn");
    assert_eq!(a, SeedAction::Store);
    assert_eq!(p.unwrap().detail, "Building \"Varn\"");
    let (st, _, a) = seed_step(st, &SeedEvent::BatchStored { entities: 3, relations: 2 }, "Varn");
    assert_eq!(a, SeedAction::Continue);
    let (st, p, a) = seed_step(st, &SeedEvent::CollectionsDone { enrich_enabled: true, queue: 5, limit: 2 }, "Varn");
    assert!(p.is_none());
    assert_eq!(a, SeedAction::Enrich { count: 2 });
    let (st, p, _) = seed_step(st, &SeedEvent::Enriching { index: 1, neighbour: s("Iron Fist") }, "Varn");
    assert_eq!(p.unwrap().detail, "Enriching \"Iron Fist\" (2/2)");
    let (_, p, a) = seed_step(st, &SeedEvent::EnrichmentDone, "Varn");
    assert_eq!(a, SeedAction::Finish);
    assert_eq!(p.unwrap().detail, "Created 3 entities, 2 relations");
}

#[test]
fn seed_run_skips_enrichment_when_switched_off() {
    let st = SeedState { entities: 1, relations: 0, passages: 2, enrich_total: 0 };
    let (_, p, a) = seed_step(st, &SeedEvent::CollectionsDone { enrich_enabled: false, queue: 5, limit: 2 }, "V");
    assert_eq!(a, SeedAction::Finish);
    assert_eq!(p.unwrap().phase, ExtractionPhase::Done);
}

#[test]
fn enrichment_keeps_longest_non_blank_answers() {
    let answers = vec![
        (Some(s("Short.")), Some(s("   "))),
        (Some(s("A longer summary.")), None),
        (Some(s("   ")), None),
    ];
    let got = enrichment_update(&Some(s("old")), &Some(s("old notes")), &answers);
    assert_eq!(got, Some((Some(s("A longer summary.")), Some(s("old notes")))));
    assert_eq!(enrichment_update(&None, &None, &[(None, Some(s(" ")))]), None);
}

#[test]
fn mention_plan_deletes_stale_and_creates_new() {
    let existing = vec![s("npc:a"), s("npc:b")];
    let resolved = vec![s("npc:b"), s("faction:c")];
    let (delete, create) = mention_edge_plan(&existing, &resolved);
    assert_eq!(delete, vec![s("npc:a")]);
    assert_eq!(create, vec![s("faction:c")]);
}

#[test]
fn seed_reports_for_a_whole_run() {
    let cols = vec![(0usize, vec![]), (3usize, vec![(2usize, 1usize), (1, 1)])];
    let names = vec![s("A"), s("B"), s("C")];
    let (reports, st) = seed_reports("Varn", &cols, true, &names, 2);
    assert_eq!(reports[0].detail, "Resolving \"Varn\"");
    let last = reports.last().unwrap();
    assert_eq!(last.phase, ExtractionPhase::Done);
    assert_eq!((last.entities_found, last.relations_found), (3, 2));
    assert_eq!((st.entities, st.relations, st.passages), (3, 2, 3));
    let enriching: Vec<_> = reports.iter().filter(|p| p.phase == ExtractionPhase::Enriching).collect();
    assert_eq!(enriching.len(), 2);
    assert_eq!(enriching[1].detail, "Enriching \"B\" (2/2)");

    let (reports, _) = seed_reports("Varn", &[(0, vec![])], true, &names, 2);
    assert_eq!(reports.len(), 2);
    assert_eq!(reports[1].phase, ExtractionPhase::Empty);
}
