use chronacle::entity::EntityError;
use chronacle::relations::{check_record_id, endpoint_keys};
use chronacle::relations::{
    collapse, delete_edge_sql, edges_of_sql, graph_node_keys, identity, is_safe_record_id, make_edge, pair_filter,
    pair_key, plan_relate_collapsing, related_entities, relate_sql, CollapsePlan, EdgeRow, GraphEdge, NameRow,
};

fn edge(from: &str, to: &str, rel: &str) -> GraphEdge {
    make_edge(from, to, rel).unwrap()
}

fn row(from: &str, to: &str, rel: &str) -> EdgeRow {
    let (fk, fi) = from.split_once(':').unwrap();
    let (tk, ti) = to.split_once(':').unwrap();
    EdgeRow {
        in_kind: fk.to_string(),
        in_id: fi.to_string(),
        out_kind: tk.to_string(),
        out_id: ti.to_string(),
        rel_type: rel.to_string(),
    }
}

#[test]
fn safe_record_ids() {
    assert!(is_safe_record_id("abc-1_\u{e9}"));
    assert!(!is_safe_record_id(""));
    assert!(!is_safe_record_id("a b"));
    assert!(!is_safe_record_id("a:b"));
    assert!(!is_safe_record_id("x;DROP"));
}

#[test]
fn make_edge_splits_at_first_colon() {
    let e = edge("npc:a:b", "faction:f", "knows");
    assert_eq!(e.from_kind, "npc");
    assert_eq!(e.from_id, "a:b");
    assert!(make_edge("npc", "faction:f", "knows").is_none());
}

#[test]
fn pair_key_orders_the_two_ends() {
    let e = edge("npc:b", "faction:a", "knows");
    assert_eq!(pair_key(&e), ("faction:a".to_string(), "npc:b".to_string()));
    let f = edge("faction:a", "npc:b", "knows");
    assert_eq!(pair_key(&f), pair_key(&e));
    assert_eq!(
        identity(&e),
        ("npc".to_string(), "b".to_string(), "faction".to_string(), "a".to_string(), "knows".to_string())
    );
}

#[test]
fn collapse_is_stable_when_repeated() {
    let once = collapse(vec![
        edge("faction:heg", "location:spire", "located_in"),
        edge("location:spire", "faction:heg", "mentioned"),
        edge("faction:heg", "npc:bob", "related_to"),
        edge("faction:heg", "npc:bob", "related_to"),
        edge("npc:bob", "faction:heg", "knows"),
    ]);
    let kinds: Vec<String> = once.iter().map(|e| e.rel_type.clone()).collect();
    assert_eq!(kinds, vec!["located_in", "related_to", "knows"]);
    let twice = collapse(once.clone());
    let kinds2: Vec<String> = twice.iter().map(|e| e.rel_type.clone()).collect();
    assert_eq!(kinds2, kinds);
}

#[test]
fn plan_relate_collapsing_decisions() {
    assert_eq!(plan_relate_collapsing("related_to", &["member_of".to_string()]), CollapsePlan::Skip);
    assert_eq!(plan_relate_collapsing("mentioned", &["knows".to_string()]), CollapsePlan::Skip);
    assert_eq!(
        plan_relate_collapsing("member_of", &["mentioned".to_string(), "knows".to_string()]),
        CollapsePlan::Create {
            delete_lower: vec!["mentioned".to_string(), "related_to".to_string(), "knows".to_string()]
        }
    );
    assert_eq!(plan_relate_collapsing("knows", &[]), CollapsePlan::Create { delete_lower: vec!["mentioned".to_string()] });
    assert_eq!(plan_relate_collapsing("mentioned", &[]), CollapsePlan::Create { delete_lower: vec![] });
    assert_eq!(
        plan_relate_collapsing("allied_with", &["enemy_of".to_string()]),
        CollapsePlan::Create {
            delete_lower: vec!["mentioned".to_string(), "related_to".to_string(), "knows".to_string()]
        }
    );
}

#[test]
fn related_entities_classify_collapse_name_and_sort() {
    let rows = vec![
        row("npc:c", "faction:f", "member_of"),
        row("faction:f", "npc:c", "mentioned"),
        row("npc:c", "npc:c", "knows"),
        row("location:l", "npc:c", "related_to"),
        row("npc:c", "item:gone", "owns"),
    ];
    let names = vec![
        NameRow { kind: "faction".to_string(), id: "f".to_string(), name: "Zeta".to_string() },
        NameRow { kind: "location".to_string(), id: "l".to_string(), name: "Alpha".to_string() },
    ];
    let r = related_entities("c", "npc", &rows, &names);
    assert_eq!(r.len(), 2);
    assert_eq!(r[0].name, "Alpha");
    assert_eq!(r[0].rel_type, "related_to");
    assert_eq!(r[0].direction, "inbound");
    assert_eq!(r[1].name, "Zeta");
    assert_eq!(r[1].kind, "faction");
    assert_eq!(r[1].rel_type, "member_of");
    assert_eq!(r[1].direction, "outbound");
}

#[test]
fn graph_node_keys_sorted_and_distinct() {
    let edges = vec![edge("npc:c", "faction:f", "member_of"), edge("location:l", "npc:c", "knows")];
    let keys = graph_node_keys("npc", "c", &edges);
    assert_eq!(
        keys,
        vec![
            ("faction".to_string(), "f".to_string()),
            ("location".to_string(), "l".to_string()),
            ("npc".to_string(), "c".to_string())
        ]
    );
    assert_eq!(graph_node_keys("npc", "c", &[]), vec![("npc".to_string(), "c".to_string())]);
}

#[test]
fn edge_statements_exact() {
    assert_eq!(pair_filter("a", "1", "b", "2"), "(in = a:1 AND out = b:2) OR (in = b:2 AND out = a:1)");
    assert_eq!(
        relate_sql("a", "1", "b", "2"),
        "RELATE a:1->relates_to->b:2 SET rel_type = $rel_type, notes = $notes, created_at = time::now()"
    );
    assert_eq!(delete_edge_sql("a", "1", "b", "2"), "DELETE relates_to WHERE in = a:1 AND out = b:2 AND rel_type = $rel_type");
    assert_eq!(edges_of_sql("npc", "c", false), "SELECT in, out, rel_type FROM relates_to WHERE in = npc:c OR out = npc:c");
    assert_eq!(
        edges_of_sql("npc", "c", true),
        "SELECT in, out, rel_type, notes FROM relates_to WHERE in = npc:c OR out = npc:c"
    );
}

#[test]
fn collapsing_twice_is_collapsing_once() {
    let edges = vec![
        edge("npc:a", "faction:b", "mentioned"),
        edge("npc:a", "faction:b", "member_of"),
        edge("faction:b", "npc:a", "related_to"),
        edge("npc:a", "faction:b", "member_of"),
        edge("npc:a", "location:c", "knows"),
        edge("location:c", "npc:a", "mentioned"),
    ];
    let once = collapse(edges);
    let keys = |v: &Vec<GraphEdge>| v.iter().map(identity).collect::<Vec<_>>();
    let first = keys(&once);
    let twice = collapse(once);
    assert_eq!(keys(&twice), first);
    assert_eq!(first.len(), 2);
}

#[test]
fn endpoint_keys_are_sorted_distinct_and_exclude_the_center() {
    let rows = vec![row("npc:a", "faction:b", "member_of"), row("location:c", "npc:a", "knows"), row("npc:a", "faction:b", "leads"), row("npc:a", "npc:a", "knows")];
    let keys = endpoint_keys(&rows, "a", "npc");
    assert_eq!(keys, vec![(s2("faction"), s2("b")), (s2("location"), s2("c"))]);
}

fn s2(x: &str) -> String {
    x.to_string()
}

#[test]
fn related_entities_keep_every_top_relation_once() {
    let rows = vec![
        row("npc:c", "faction:f", "member_of"),
        row("npc:c", "faction:f", "knows"),
        row("npc:c", "faction:f", "member_of"),
        row("npc:c", "faction:f", "leads"),
        row("faction:f", "npc:c", "member_of"),
    ];
    let names = vec![NameRow { kind: "faction".to_string(), id: "f".to_string(), name: "Zeta".to_string() }];
    let r = related_entities("c", "npc", &rows, &names);
    let got: Vec<(String, String)> = r.iter().map(|x| (x.rel_type.clone(), x.direction.clone())).collect();
    assert_eq!(
        got,
        vec![
            ("member_of".to_string(), "outbound".to_string()),
            ("leads".to_string(), "outbound".to_string()),
            ("member_of".to_string(), "inbound".to_string()),
        ]
    );
    assert!(r.iter().all(|x| x.name == "Zeta" && x.kind == "faction" && x.id == "f"));
}

#[test]
fn check_record_id_names_the_field_of_an_unsafe_id() {
    assert!(check_record_id("id", "npc_1-a").is_ok());
    match check_record_id("to_id", "x; DELETE") {
        Err(EntityError::Validation { field, message }) => {
            assert_eq!(field, "to_id");
            assert_eq!(message, "Invalid entity id");
        }
        _ => panic!("expected a validation error"),
    }
    assert!(check_record_id("id", "").is_err());
}
