//! Graph entities of a campaign: their kinds and table names, the node and
//! input records, timeline ordering and the text used to embed a node.
use vstd::prelude::*;
use crate::order::{lex_le, lex_le_chars, lemma_lex_total, lemma_lex_trans, TotalPreorder};
use crate::text::{chars_of, str_eq, string_of, trim, trim_chars, is_blank, extend_chars};

verus! {

// ── Errors ─────────────────────────────────────────────────────────────────

/// Failures of the entity operations.
#[derive(Debug)]
pub enum EntityError {
    NotFound { id: String },
    CampaignMismatch,
    InvalidKind { kind: String },
    Validation { field: String, message: String },
    Database { message: String },
}

// ── Kinds ──────────────────────────────────────────────────────────────────

/// The eight kinds of graph node; each lives in a table of its own.
#[derive(Debug, Clone, Copy, PartialEq, Eq, Structural)]
pub enum EntityKind {
    Npc,
    Location,
    Faction,
    Creature,
    Item,
    Event,
    PlayerCharacter,
    Misc,
}

/// The table that holds nodes of kind `k`.
pub open spec fn kind_table(k: EntityKind) -> Seq<char> {
    match k {
        EntityKind::Npc => "npc"@,
        EntityKind::Location => "location"@,
        EntityKind::Faction => "faction"@,
        EntityKind::Creature => "creature"@,
        EntityKind::Item => "item"@,
        EntityKind::Event => "event"@,
        EntityKind::PlayerCharacter => "player_character"@,
        EntityKind::Misc => "misc"@,
    }
}

/// The kind whose table is named `t`, if any.
pub open spec fn kind_for_table(t: Seq<char>) -> Option<EntityKind> {
    if t == kind_table(EntityKind::Npc) {
        Some(EntityKind::Npc)
    } else if t == kind_table(EntityKind::Location) {
        Some(EntityKind::Location)
    } else if t == kind_table(EntityKind::Faction) {
        Some(EntityKind::Faction)
    } else if t == kind_table(EntityKind::Creature) {
        Some(EntityKind::Creature)
    } else if t == kind_table(EntityKind::Item) {
        Some(EntityKind::Item)
    } else if t == kind_table(EntityKind::Event) {
        Some(EntityKind::Event)
    } else if t == kind_table(EntityKind::PlayerCharacter) {
        Some(EntityKind::PlayerCharacter)
    } else if t == kind_table(EntityKind::Misc) {
        Some(EntityKind::Misc)
    } else {
        None
    }
}

impl EntityKind {
    /// The table name of this kind.
    pub fn table_name(&self) -> (r: &'static str)
        ensures
            r@ == kind_table(*self),
    {
        match self {
            EntityKind::Npc => "npc",
            EntityKind::Location => "location",
            EntityKind::Faction => "faction",
            EntityKind::Creature => "creature",
            EntityKind::Item => "item",
            EntityKind::Event => "event",
            EntityKind::PlayerCharacter => "player_character",
            EntityKind::Misc => "misc",
        }
    }

    /// The kind stored in table `table`; an unknown table is `InvalidKind`
    /// carrying the name that was given.
    pub fn from_table(table: &str) -> (r: Result<EntityKind, EntityError>)
        ensures
            match r {
                Ok(k) => kind_for_table(table@) == Some(k),
                Err(e) => kind_for_table(table@) is None && (e matches EntityError::InvalidKind {
                    kind,
                } && kind@ == table@),
            },
    {
        if str_eq(table, "npc") {
            Ok(EntityKind::Npc)
        } else if str_eq(table, "location") {
            Ok(EntityKind::Location)
        } else if str_eq(table, "faction") {
            Ok(EntityKind::Faction)
        } else if str_eq(table, "creature") {
            Ok(EntityKind::Creature)
        } else if str_eq(table, "item") {
            Ok(EntityKind::Item)
        } else if str_eq(table, "event") {
            Ok(EntityKind::Event)
        } else if str_eq(table, "player_character") {
            Ok(EntityKind::PlayerCharacter)
        } else if str_eq(table, "misc") {
            Ok(EntityKind::Misc)
        } else {
            Err(EntityError::InvalidKind { kind: table.to_owned() })
        }
    }
}

/// Reading a kind back from its table name gives the same kind: the table
/// names of distinct kinds are distinct, and `from_table` inverts
/// `table_name`.
pub proof fn lemma_table_name_roundtrip(k: EntityKind)
    ensures
        kind_for_table(kind_table(k)) == Some(k),
{
    reveal_strlit("npc");
    reveal_strlit("location");
    reveal_strlit("faction");
    reveal_strlit("creature");
    reveal_strlit("item");
    reveal_strlit("event");
    reveal_strlit("player_character");
    reveal_strlit("misc");
    assert("npc"@ != "location"@) by { assert("npc"@.len() != "location"@.len()); }
    assert("npc"@ != "faction"@) by { assert("npc"@.len() != "faction"@.len()); }
    assert("npc"@ != "creature"@) by { assert("npc"@.len() != "creature"@.len()); }
    assert("npc"@ != "item"@) by { assert("npc"@.len() != "item"@.len()); }
    assert("npc"@ != "event"@) by { assert("npc"@.len() != "event"@.len()); }
    assert("npc"@ != "player_character"@) by { assert("npc"@.len() != "player_character"@.len()); }
    assert("npc"@ != "misc"@) by { assert("npc"@.len() != "misc"@.len()); }
    assert("location"@ != "faction"@) by { assert("location"@[0] != "faction"@[0]); }
    assert("location"@ != "creature"@) by { assert("location"@[0] != "creature"@[0]); }
    assert("location"@ != "item"@) by { assert("location"@.len() != "item"@.len()); }
    assert("location"@ != "event"@) by { assert("location"@.len() != "event"@.len()); }
    assert("location"@ != "player_character"@) by { assert("location"@.len() != "player_character"@.len()); }
    assert("location"@ != "misc"@) by { assert("location"@.len() != "misc"@.len()); }
    assert("faction"@ != "creature"@) by { assert("faction"@.len() != "creature"@.len()); }
    assert("faction"@ != "item"@) by { assert("faction"@.len() != "item"@.len()); }
    assert("faction"@ != "event"@) by { assert("faction"@.len() != "event"@.len()); }
    assert("faction"@ != "player_character"@) by { assert("faction"@.len() != "player_character"@.len()); }
    assert("faction"@ != "misc"@) by { assert("faction"@.len() != "misc"@.len()); }
    assert("creature"@ != "item"@) by { assert("creature"@.len() != "item"@.len()); }
    assert("creature"@ != "event"@) by { assert("creature"@.len() != "event"@.len()); }
    assert("creature"@ != "player_character"@) by { assert("creature"@.len() != "player_character"@.len()); }
    assert("creature"@ != "misc"@) by { assert("creature"@.len() != "misc"@.len()); }
    assert("item"@ != "event"@) by { assert("item"@.len() != "event"@.len()); }
    assert("item"@ != "player_character"@) by { assert("item"@.len() != "player_character"@.len()); }
    assert("item"@ != "misc"@) by { assert("item"@[0] != "misc"@[0]); }
    assert("event"@ != "player_character"@) by { assert("event"@.len() != "player_character"@.len()); }
    assert("event"@ != "misc"@) by { assert("event"@.len() != "misc"@.len()); }
    assert("player_character"@ != "misc"@) by { assert("player_character"@.len() != "misc"@.len()); }
}

// ── Records ────────────────────────────────────────────────────────────────

/// A graph node as the front end sees it.
#[derive(Debug, Clone)]
pub struct GraphNode {
    pub id: String,
    pub kind: String,
    pub campaign_id: Option<String>,
    pub collection_id: Option<String>,
    pub name: String,
    pub summary: Option<String>,
    pub notes: Option<String>,
    pub created_at: Option<String>,
    pub updated_at: Option<String>,
    pub date_start: Option<String>,
    pub date_end: Option<String>,
    pub is_ongoing: Option<bool>,
    pub sequence_index: Option<i64>,
    pub era: Option<String>,
    pub duration_label: Option<String>,
    pub session_id: Option<String>,
    pub player_name: Option<String>,
    pub character_class: Option<String>,
    pub character_level: Option<i64>,
    pub status: Option<String>,
}

/// The fields a caller gives to create or update a node.
#[derive(Debug, Clone, Default)]
pub struct EntityInput {
    pub name: String,
    pub summary: Option<String>,
    pub notes: Option<String>,
    pub date_start: Option<String>,
    pub date_end: Option<String>,
    pub is_ongoing: Option<bool>,
    pub sequence_index: Option<i64>,
    pub era: Option<String>,
    pub duration_label: Option<String>,
    pub session_id: Option<String>,
    pub player_name: Option<String>,
    pub character_class: Option<String>,
    pub character_level: Option<i64>,
    pub status: Option<String>,
}

// ── Timeline order ─────────────────────────────────────────────────────────

/// Timeline order: sequenced events by `sequence_index`, then by name;
/// unsequenced events after all sequenced ones, by name.
pub open spec fn timeline_before(a_seq: Option<i64>, a_name: Seq<char>, b_seq: Option<i64>, b_name: Seq<char>) -> bool {
    match (a_seq, b_seq) {
        (Some(x), Some(y)) => x < y || (x == y && lex_le(a_name, b_name)),
        (Some(_), None) => true,
        (None, Some(_)) => false,
        (None, None) => lex_le(a_name, b_name),
    }
}

impl TotalPreorder for GraphNode {
    open spec fn before_eq(&self, other: &Self) -> bool {
        timeline_before(self.sequence_index, self.name@, other.sequence_index, other.name@)
    }

    fn le(&self, other: &Self) -> (r: bool) {
        match (self.sequence_index, other.sequence_index) {
            (Some(x), Some(y)) => {
                if x < y {
                    true
                } else if x == y {
                    let a = chars_of(self.name.as_str());
                    let b = chars_of(other.name.as_str());
                    lex_le_chars(&a, &b)
                } else {
                    false
                }
            },
            (Some(_), None) => true,
            (None, Some(_)) => false,
            (None, None) => {
                let a = chars_of(self.name.as_str());
                let b = chars_of(other.name.as_str());
                lex_le_chars(&a, &b)
            },
        }
    }

    proof fn lemma_total(a: &Self, b: &Self) {
        lemma_lex_total(a.name@, b.name@);
    }

    proof fn lemma_trans(a: &Self, b: &Self, c: &Self) {
        if lex_le(a.name@, b.name@) && lex_le(b.name@, c.name@) {
            lemma_lex_trans(a.name@, b.name@, c.name@);
        }
    }
}

/// Orders events for a timeline: by `sequence_index` (unsequenced last),
/// ties broken by name; events equal in both keep their input order.
pub fn order_events_for_timeline(events: Vec<GraphNode>) -> (r: Vec<GraphNode>)
    ensures
        crate::order::sorted_by_preorder(r@),
        forall|x: GraphNode| #[trigger] crate::order::class_of(r@, x) == crate::order::class_of(events@, x),
        r@.len() == events@.len(),
{
    crate::order::stable_sort(events)
}

// ── Embedding text ─────────────────────────────────────────────────────────

/// The view of an optional string.
pub open spec fn opt_str_view(o: Option<&str>) -> Option<Seq<char>> {
    match o {
        Some(s) => Some(s@),
        None => None,
    }
}

/// `sep + trim(part)` when the part is present and not blank, else nothing.
pub open spec fn optional_part(part: Option<Seq<char>>, sep: Seq<char>) -> Seq<char> {
    match part {
        Some(p) => if trim(p).len() > 0 { sep + trim(p) } else { Seq::empty() },
        None => Seq::empty(),
    }
}

/// The text embedded for a node: trimmed name, then `": "` and the trimmed
/// summary, then a newline and the trimmed notes; blank parts are left out.
pub open spec fn embed_text_spec(name: Seq<char>, summary: Option<Seq<char>>, notes: Option<Seq<char>>) -> Seq<char> {
    trim(name) + optional_part(summary, seq![':', ' ']) + optional_part(notes, seq!['\n'])
}

fn push_optional_part(out: &mut Vec<char>, part: Option<&str>, sep: &Vec<char>)
    ensures
        final(out)@ == old(out)@ + optional_part(opt_str_view(part), sep@),
{
    match part {
        Some(p) => {
            let pc = chars_of(p);
            if !is_blank(&pc) {
                let t = trim_chars(&pc);
                extend_chars(out, sep);
                extend_chars(out, &t);
                assert(final(out)@ =~= old(out)@ + (sep@ + trim(p@)));
            } else {
                assert(old(out)@ + Seq::<char>::empty() =~= old(out)@);
            }
        },
        None => {
            assert(old(out)@ + Seq::<char>::empty() =~= old(out)@);
        },
    }
}

/// The document text used to embed a node for semantic retrieval.
pub fn embed_text(name: &str, summary: Option<&str>, notes: Option<&str>) -> (r: String)
    ensures
        r@ == embed_text_spec(name@, opt_str_view(summary), opt_str_view(notes)),
{
    let nc = chars_of(name);
    let mut out = trim_chars(&nc);
    let colon = vec![':', ' '];
    let newline = vec!['\n'];
    assert(colon@ =~= seq![':', ' ']);
    assert(newline@ =~= seq!['\n']);
    push_optional_part(&mut out, summary, &colon);
    push_optional_part(&mut out, notes, &newline);
    string_of(&out)
}

/// The input of an NPC with only a name.
pub fn make_npc(name: &str) -> (r: EntityInput)
    ensures
        r.name@ == name@,
        r.summary is None && r.notes is None && r.date_start is None && r.date_end is None,
        r.is_ongoing is None && r.sequence_index is None && r.era is None && r.duration_label is None,
        r.session_id is None && r.player_name is None && r.character_class is None,
        r.character_level is None && r.status is None,
{
    EntityInput {
        name: name.to_owned(),
        summary: None,
        notes: None,
        date_start: None,
        date_end: None,
        is_ongoing: None,
        sequence_index: None,
        era: None,
        duration_label: None,
        session_id: None,
        player_name: None,
        character_class: None,
        character_level: None,
        status: None,
    }
}

} // verus!
