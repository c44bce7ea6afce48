use chronacle::relations::{collapse, make_edge, rel_specificity, GraphEdge};

fn edge(from: &str, to: &str, rel: &str) -> GraphEdge {
    make_edge(from, to, rel).unwrap()
}

#[test]
fn relations_rel_specificity_tiers_match_vocab() {
    assert_eq!(rel_specificity("mentioned"), 0);
    assert_eq!(rel_specificity("related_to"), 1);
    assert_eq!(rel_specificity("knows"), 1);
    // Specific directional types and unknown custom verbs are all tier 2.
    assert_eq!(rel_specificity("member_of"), 2);
    assert_eq!(rel_specificity("located_in"), 2);
    assert_eq!(rel_specificity("enemy_of"), 2);
    assert_eq!(rel_specificity("betrays"), 2);
}

#[test]
fn relations_tests_rel_specificity_tiers_match_vocab() {
    assert_eq!(rel_specificity("mentioned"), 0);
    assert_eq!(rel_specificity("related_to"), 1);
    assert_eq!(rel_specificity("knows"), 1);
    // Specific directional types and unknown custom verbs are all tier 2.
    assert_eq!(rel_specificity("member_of"), 2);
    assert_eq!(rel_specificity("located_in"), 2);
    assert_eq!(rel_specificity("enemy_of"), 2);
    assert_eq!(rel_specificity("betrays"), 2);
}

#[test]
fn relations_collapse_drops_generic_when_specific_exists_for_pair() {
    // Hegemony located_in Spire AND related_to Spire → keep only located_in.
    let kept = collapse(vec![
        edge("faction:heg", "location:spire", "located_in"),
        edge("faction:heg", "location:spire", "related_to"),
    ]);
    assert_eq!(kept.len(), 1);
    assert_eq!(kept[0].rel_type, "located_in");
}

#[test]
fn relations_tests_collapse_drops_generic_when_specific_exists_for_pair() {
    // Hegemony located_in Spire AND related_to Spire → keep only located_in.
    let kept = collapse(vec![
        edge("faction:heg", "location:spire", "located_in"),
        edge("faction:heg", "location:spire", "related_to"),
    ]);
    assert_eq!(kept.len(), 1);
    assert_eq!(kept[0].rel_type, "located_in");
}

#[test]
fn relations_collapse_drops_mentioned_against_specific_regardless_of_direction() {
    // member_of one way, mentioned the other way, same pair → keep member_of.
    let kept = collapse(vec![
        edge("faction:heg", "faction:other", "member_of"),
        edge("faction:other", "faction:heg", "mentioned"),
    ]);
    assert_eq!(kept.len(), 1);
    assert_eq!(kept[0].rel_type, "member_of");
}

#[test]
fn relations_tests_collapse_drops_mentioned_against_specific_regardless_of_direction() {
    // member_of one way, mentioned the other way, same pair → keep member_of.
    let kept = collapse(vec![
        edge("faction:heg", "faction:other", "member_of"),
        edge("faction:other", "faction:heg", "mentioned"),
    ]);
    assert_eq!(kept.len(), 1);
    assert_eq!(kept[0].rel_type, "member_of");
}

#[test]
fn relations_collapse_keeps_mentioned_when_it_is_the_only_edge() {
    let kept = collapse(vec![edge("faction:heg", "npc:bob", "mentioned")]);
    assert_eq!(kept.len(), 1);
    assert_eq!(kept[0].rel_type, "mentioned");
}

#[test]
fn relations_tests_collapse_keeps_mentioned_when_it_is_the_only_edge() {
    let kept = collapse(vec![edge("faction:heg", "npc:bob", "mentioned")]);
    assert_eq!(kept.len(), 1);
    assert_eq!(kept[0].rel_type, "mentioned");
}

#[test]
fn relations_collapse_keeps_distinct_specific_types_for_same_pair() {
    // Two contradictory-but-specific edges both survive (same tier).
    let kept = collapse(vec![
        edge("faction:a", "faction:b", "allied_with"),
        edge("faction:a", "faction:b", "enemy_of"),
    ]);
    assert_eq!(kept.len(), 2);
}

#[test]
fn relations_tests_collapse_keeps_distinct_specific_types_for_same_pair() {
    // Two contradictory-but-specific edges both survive (same tier).
    let kept = collapse(vec![
        edge("faction:a", "faction:b", "allied_with"),
        edge("faction:a", "faction:b", "enemy_of"),
    ]);
    assert_eq!(kept.len(), 2);
}

#[test]
fn relations_collapse_dedupes_identical_edges() {
    let kept = collapse(vec![
        edge("faction:a", "faction:b", "member_of"),
        edge("faction:a", "faction:b", "member_of"),
    ]);
    assert_eq!(kept.len(), 1);
}

#[test]
fn relations_tests_collapse_dedupes_identical_edges() {
    let kept = collapse(vec![
        edge("faction:a", "faction:b", "member_of"),
        edge("faction:a", "faction:b", "member_of"),
    ]);
    assert_eq!(kept.len(), 1);
}

#[test]
fn relations_collapse_does_not_mix_unrelated_pairs() {
    // related_to to one entity stays when there is no specific edge to it,
    // even though a specific edge exists to a different entity.
    let kept = collapse(vec![
        edge("faction:heg", "location:spire", "located_in"),
        edge("faction:heg", "npc:bob", "related_to"),
    ]);
    assert_eq!(kept.len(), 2);
}

#[test]
fn relations_tests_collapse_does_not_mix_unrelated_pairs() {
    // related_to to one entity stays when there is no specific edge to it,
    // even though a specific edge exists to a different entity.
    let kept = collapse(vec![
        edge("faction:heg", "location:spire", "located_in"),
        edge("faction:heg", "npc:bob", "related_to"),
    ]);
    assert_eq!(kept.len(), 2);
}
