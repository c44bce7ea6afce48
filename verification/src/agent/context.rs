//! The campaign-notes block of the assistant's prompt: one line per entity
//! and session of the campaign, then the entities found in subscribed
//! collections; and the query filter that selects those collections.
use vstd::prelude::*;
use crate::agent::prompt::{notes_excerpt, notes_excerpt_spec, opt_string_view};
use crate::decimal::{int_decimal, push_i64_decimal};
use crate::text::{chars_of, contains_seq, extend_str, is_blank, join, occurs_at, string_of, trim};

verus! {

// ── Rows ───────────────────────────────────────────────────────────────────

/// An entity with only the common fields.
#[derive(Debug, Clone)]
pub struct BasicRow {
    pub name: String,
    pub summary: Option<String>,
    pub notes: Option<String>,
}

/// A player character.
#[derive(Debug, Clone)]
pub struct PcRow {
    pub name: String,
    pub summary: Option<String>,
    pub notes: Option<String>,
    pub player_name: Option<String>,
    pub character_class: Option<String>,
    pub character_level: Option<i64>,
    pub status: Option<String>,
}

/// An event with its in-world dates.
#[derive(Debug, Clone)]
pub struct EventRow {
    pub name: String,
    pub summary: Option<String>,
    pub notes: Option<String>,
    pub date_start: Option<String>,
    pub date_end: Option<String>,
}

/// A play session.
#[derive(Debug, Clone)]
pub struct SessionRow {
    pub title: String,
    pub notes: Option<String>,
    pub date_played: Option<String>,
    pub session_number: Option<i64>,
}

/// An entity of a subscribed collection, with the table it came from.
#[derive(Debug, Clone)]
pub struct CollectionEntity {
    pub kind: String,
    pub row: BasicRow,
}

/// Everything a campaign holds, each list in the order it was read.
#[derive(Debug, Clone)]
pub struct CampaignRows {
    pub pcs: Vec<PcRow>,
    pub npcs: Vec<BasicRow>,
    pub locations: Vec<BasicRow>,
    pub factions: Vec<BasicRow>,
    pub creatures: Vec<BasicRow>,
    pub items: Vec<BasicRow>,
    pub events: Vec<EventRow>,
    pub misc: Vec<BasicRow>,
    pub sessions: Vec<SessionRow>,
}

// ── Line pieces ────────────────────────────────────────────────────────────

/// The separator between the fields of a line.
pub open spec fn dot() -> Seq<char> {
    " \u{b7} "@
}

/// `" · " + s` when `s` is present and not blank (`s` itself untrimmed).
pub open spec fn summary_part(s: Option<Seq<char>>) -> Seq<char> {
    match s {
        Some(t) => if trim(t).len() > 0 {
            dot() + t
        } else {
            Seq::empty()
        },
        None => Seq::empty(),
    }
}

/// `" · Notes: "` and the note's excerpt, when there is one.
pub open spec fn notes_part(n: Option<Seq<char>>) -> Seq<char> {
    match notes_excerpt_spec(n) {
        Some(e) => dot() + "Notes: "@ + e,
        None => Seq::empty(),
    }
}

/// `" · " + label + v` when `v` is present (even when blank).
pub open spec fn labelled(label: Seq<char>, v: Option<Seq<char>>) -> Seq<char> {
    match v {
        Some(t) => dot() + label + t,
        None => Seq::empty(),
    }
}

pub open spec fn basic_line(kind: Seq<char>, r: BasicRow) -> Seq<char> {
    seq!['['] + kind + seq![']', ' '] + r.name@ + summary_part(opt_string_view(r.summary))
        + notes_part(opt_string_view(r.notes)) + seq!['\n']
}

/// The level of a character, when known.
pub open spec fn level_part(l: Option<i64>) -> Seq<char> {
    match l {
        Some(v) => dot() + "Level: "@ + int_decimal(v as int),
        None => Seq::empty(),
    }
}

pub open spec fn pc_head(r: PcRow) -> Seq<char> {
    "[player_character] "@ + r.name@ + labelled("Player: "@, opt_string_view(r.player_name))
        + labelled("Class: "@, opt_string_view(r.character_class)) + level_part(r.character_level)
        + labelled("Status: "@, opt_string_view(r.status))
}

pub open spec fn pc_line(r: PcRow) -> Seq<char> {
    pc_head(r) + summary_part(opt_string_view(r.summary)) + notes_part(opt_string_view(r.notes))
        + seq!['\n']
}

/// The dates of an event: start and end with an arrow when both are given
/// and not blank, the start alone when only it is, else nothing.
pub open spec fn event_dates(start: Option<Seq<char>>, end: Option<Seq<char>>) -> Seq<char> {
    match start {
        Some(s) => if trim(s).len() > 0 {
            match end {
                Some(e) => if trim(e).len() > 0 {
                    dot() + s + " \u{2192} "@ + e
                } else {
                    dot() + s
                },
                None => dot() + s,
            }
        } else {
            Seq::empty()
        },
        None => Seq::empty(),
    }
}

pub open spec fn event_line(r: EventRow) -> Seq<char> {
    "[event] "@ + r.name@ + event_dates(opt_string_view(r.date_start), opt_string_view(r.date_end))
        + summary_part(opt_string_view(r.summary)) + notes_part(opt_string_view(r.notes)) + seq!['\n']
}

pub open spec fn session_line(r: SessionRow) -> Seq<char> {
    (match r.session_number {
        Some(num) => "[session "@ + int_decimal(num as int) + seq![']', ' '] + r.title@,
        None => "[session] "@ + r.title@,
    }) + summary_part(opt_string_view(r.date_played)) + notes_part(opt_string_view(r.notes))
        + seq!['\n']
}

// ── Sections ───────────────────────────────────────────────────────────────

pub open spec fn basic_lines(kind: Seq<char>, rs: Seq<BasicRow>) -> Seq<char>
    decreases rs.len(),
{
    if rs.len() == 0 {
        Seq::empty()
    } else {
        basic_lines(kind, rs.drop_last()) + basic_line(kind, rs.last())
    }
}

pub open spec fn pc_lines(rs: Seq<PcRow>) -> Seq<char>
    decreases rs.len(),
{
    if rs.len() == 0 {
        Seq::empty()
    } else {
        pc_lines(rs.drop_last()) + pc_line(rs.last())
    }
}

pub open spec fn event_lines(rs: Seq<EventRow>) -> Seq<char>
    decreases rs.len(),
{
    if rs.len() == 0 {
        Seq::empty()
    } else {
        event_lines(rs.drop_last()) + event_line(rs.last())
    }
}

pub open spec fn session_lines(rs: Seq<SessionRow>) -> Seq<char>
    decreases rs.len(),
{
    if rs.len() == 0 {
        Seq::empty()
    } else {
        session_lines(rs.drop_last()) + session_line(rs.last())
    }
}

pub open spec fn collection_lines(rs: Seq<CollectionEntity>) -> Seq<char>
    decreases rs.len(),
{
    if rs.len() == 0 {
        Seq::empty()
    } else {
        collection_lines(rs.drop_last()) + basic_line(rs.last().kind@, rs.last().row)
    }
}

/// A blank line and then `lines`, when the section has rows.
pub open spec fn section(nonempty: bool, lines: Seq<char>) -> Seq<char> {
    if nonempty {
        seq!['\n'] + lines
    } else {
        Seq::empty()
    }
}

/// True when the campaign has no entity and no session.
pub open spec fn campaign_is_empty(c: CampaignRows) -> bool {
    &&& c.pcs@.len() == 0
    &&& c.npcs@.len() == 0
    &&& c.locations@.len() == 0
    &&& c.factions@.len() == 0
    &&& c.creatures@.len() == 0
    &&& c.items@.len() == 0
    &&& c.events@.len() == 0
    &&& c.misc@.len() == 0
    &&& c.sessions@.len() == 0
}

/// Heading of the whole block.
pub const NOTES_HEAD: &'static str = "Campaign notes (your GM records):\n";

/// Heading of the collection section.
pub const COLLECTION_HEAD: &'static str = "\nCollection knowledge (from subscribed rulebooks):\n";

/// The campaign-notes block: empty when there is nothing at all; else the
/// heading, then player characters, NPCs, locations, factions, creatures,
/// items, events, miscellany and sessions, each kind in a section of its own,
/// then the collection entities.
pub open spec fn entity_context_spec(c: CampaignRows, col: Seq<CollectionEntity>) -> Seq<char> {
    if campaign_is_empty(c) && col.len() == 0 {
        Seq::empty()
    } else {
        NOTES_HEAD@
            + section(c.pcs@.len() > 0, pc_lines(c.pcs@))
            + section(c.npcs@.len() > 0, basic_lines("npc"@, c.npcs@))
            + section(c.locations@.len() > 0, basic_lines("location"@, c.locations@))
            + section(c.factions@.len() > 0, basic_lines("faction"@, c.factions@))
            + section(c.creatures@.len() > 0, basic_lines("creature"@, c.creatures@))
            + section(c.items@.len() > 0, basic_lines("item"@, c.items@))
            + section(c.events@.len() > 0, event_lines(c.events@))
            + section(c.misc@.len() > 0, basic_lines("misc"@, c.misc@))
            + section(c.sessions@.len() > 0, session_lines(c.sessions@))
            + if col.len() > 0 {
            COLLECTION_HEAD@ + collection_lines(col)
        } else {
            Seq::empty()
        }
    }
}

// ── Building the lines ─────────────────────────────────────────────────────

fn push_summary_part(out: &mut Vec<char>, s: &Option<String>)
    ensures
        final(out)@ == old(out)@ + summary_part(opt_string_view(*s)),
{
    match s {
        Some(t) => {
            let tc = chars_of(t.as_str());
            if !is_blank(&tc) {
                extend_str(out, " \u{b7} ");
                extend_str(out, t.as_str());
                assert(final(out)@ =~= old(out)@ + (dot() + t@));
            } else {
                assert(final(out)@ =~= old(out)@ + Seq::<char>::empty());
            }
        },
        None => {
            assert(final(out)@ =~= old(out)@ + Seq::<char>::empty());
        },
    }
}

fn push_notes_part(out: &mut Vec<char>, n: &Option<String>)
    ensures
        final(out)@ == old(out)@ + notes_part(opt_string_view(*n)),
{
    let e = match n {
        Some(t) => notes_excerpt(Some(t.as_str())),
        None => notes_excerpt(None),
    };
    match e {
        Some(x) => {
            extend_str(out, " \u{b7} ");
            extend_str(out, "Notes: ");
            extend_str(out, x.as_str());
            assert(final(out)@ =~= old(out)@ + (dot() + "Notes: "@ + x@));
        },
        None => {
            assert(final(out)@ =~= old(out)@ + Seq::<char>::empty());
        },
    }
}

fn push_labelled(out: &mut Vec<char>, label: &str, v: &Option<String>)
    ensures
        final(out)@ == old(out)@ + labelled(label@, opt_string_view(*v)),
{
    match v {
        Some(t) => {
            extend_str(out, " \u{b7} ");
            extend_str(out, label);
            extend_str(out, t.as_str());
            assert(final(out)@ =~= old(out)@ + (dot() + label@ + t@));
        },
        None => {
            assert(final(out)@ =~= old(out)@ + Seq::<char>::empty());
        },
    }
}

fn push_basic_line(out: &mut Vec<char>, kind: &str, r: &BasicRow)
    ensures
        final(out)@ == old(out)@ + basic_line(kind@, *r),
{
    out.push('[');
    extend_str(out, kind);
    out.push(']');
    out.push(' ');
    extend_str(out, r.name.as_str());
    let ghost a = out@;
    push_summary_part(out, &r.summary);
    push_notes_part(out, &r.notes);
    out.push('\n');
    assert(final(out)@ =~= old(out)@ + basic_line(kind@, *r));
}

fn push_pc_line(out: &mut Vec<char>, r: &PcRow)
    ensures
        final(out)@ == old(out)@ + pc_line(*r),
{
    extend_str(out, "[player_character] ");
    extend_str(out, r.name.as_str());
    push_labelled(out, "Player: ", &r.player_name);
    push_labelled(out, "Class: ", &r.character_class);
    let ghost a = out@;
    match r.character_level {
        Some(l) => {
            extend_str(out, " \u{b7} ");
            extend_str(out, "Level: ");
            push_i64_decimal(out, l);
            assert(out@ =~= a + (dot() + "Level: "@ + int_decimal(l as int)));
        },
        None => {
            assert(out@ =~= a + Seq::<char>::empty());
        },
    }
    assert(out@ =~= a + level_part(r.character_level));
    push_labelled(out, "Status: ", &r.status);
    assert(out@ =~= old(out)@ + pc_head(*r));
    let ghost b = out@;
    push_summary_part(out, &r.summary);
    push_notes_part(out, &r.notes);
    out.push('\n');
    assert(final(out)@ =~= b + (summary_part(opt_string_view(r.summary)) + notes_part(opt_string_view(r.notes)) + seq!['\n']));
    assert(final(out)@ =~= old(out)@ + pc_line(*r));
}

fn push_event_dates(out: &mut Vec<char>, start: &Option<String>, end: &Option<String>)
    ensures
        final(out)@ == old(out)@ + event_dates(opt_string_view(*start), opt_string_view(*end)),
{
    match start {
        Some(s) => {
            let sc = chars_of(s.as_str());
            if !is_blank(&sc) {
                extend_str(out, " \u{b7} ");
                extend_str(out, s.as_str());
                let ghost a = out@;
                match end {
                    Some(e) => {
                        let ec = chars_of(e.as_str());
                        if !is_blank(&ec) {
                            extend_str(out, " \u{2192} ");
                            extend_str(out, e.as_str());
                            assert(final(out)@ =~= old(out)@ + (dot() + s@ + " \u{2192} "@ + e@));
                        } else {
                            assert(final(out)@ =~= old(out)@ + (dot() + s@));
                        }
                    },
                    None => {
                        assert(final(out)@ =~= old(out)@ + (dot() + s@));
                    },
                }
            } else {
                assert(final(out)@ =~= old(out)@ + Seq::<char>::empty());
            }
        },
        None => {
            assert(final(out)@ =~= old(out)@ + Seq::<char>::empty());
        },
    }
}

fn push_event_line(out: &mut Vec<char>, r: &EventRow)
    ensures
        final(out)@ == old(out)@ + event_line(*r),
{
    extend_str(out, "[event] ");
    extend_str(out, r.name.as_str());
    push_event_dates(out, &r.date_start, &r.date_end);
    push_summary_part(out, &r.summary);
    push_notes_part(out, &r.notes);
    out.push('\n');
    assert(final(out)@ =~= old(out)@ + event_line(*r));
}

fn push_session_line(out: &mut Vec<char>, r: &SessionRow)
    ensures
        final(out)@ == old(out)@ + session_line(*r),
{
    match r.session_number {
        Some(num) => {
            extend_str(out, "[session ");
            push_i64_decimal(out, num);
            out.push(']');
            out.push(' ');
            extend_str(out, r.title.as_str());
        },
        None => {
            extend_str(out, "[session] ");
            extend_str(out, r.title.as_str());
        },
    }
    push_summary_part(out, &r.date_played);
    push_notes_part(out, &r.notes);
    out.push('\n');
    assert(final(out)@ =~= old(out)@ + session_line(*r));
}

fn push_basic_section(out: &mut Vec<char>, kind: &str, rs: &Vec<BasicRow>)
    ensures
        final(out)@ == old(out)@ + section(rs@.len() > 0, basic_lines(kind@, rs@)),
{
    if rs.len() == 0 {
        assert(final(out)@ =~= old(out)@ + Seq::<char>::empty());
        return;
    }
    out.push('\n');
    let ghost a = out@;
    let mut i: usize = 0;
    while i < rs.len()
        invariant
            i <= rs@.len(),
            out@ == a + basic_lines(kind@, rs@.take(i as int)),
        decreases rs@.len() - i,
    {
        push_basic_line(out, kind, &rs[i]);
        proof {
            assert(rs@.take(i + 1).drop_last() =~= rs@.take(i as int));
        }
        i += 1;
    }
    assert(rs@.take(i as int) =~= rs@);
    assert(final(out)@ =~= old(out)@ + section(rs@.len() > 0, basic_lines(kind@, rs@)));
}

fn push_pc_section(out: &mut Vec<char>, rs: &Vec<PcRow>)
    ensures
        final(out)@ == old(out)@ + section(rs@.len() > 0, pc_lines(rs@)),
{
    if rs.len() == 0 {
        assert(final(out)@ =~= old(out)@ + Seq::<char>::empty());
        return;
    }
    out.push('\n');
    let ghost a = out@;
    let mut i: usize = 0;
    while i < rs.len()
        invariant
            i <= rs@.len(),
            out@ == a + pc_lines(rs@.take(i as int)),
        decreases rs@.len() - i,
    {
        push_pc_line(out, &rs[i]);
        proof {
            assert(rs@.take(i + 1).drop_last() =~= rs@.take(i as int));
        }
        i += 1;
    }
    assert(rs@.take(i as int) =~= rs@);
    assert(final(out)@ =~= old(out)@ + section(rs@.len() > 0, pc_lines(rs@)));
}

fn push_event_section(out: &mut Vec<char>, rs: &Vec<EventRow>)
    ensures
        final(out)@ == old(out)@ + section(rs@.len() > 0, event_lines(rs@)),
{
    if rs.len() == 0 {
        assert(final(out)@ =~= old(out)@ + Seq::<char>::empty());
        return;
    }
    out.push('\n');
    let ghost a = out@;
    let mut i: usize = 0;
    while i < rs.len()
        invariant
            i <= rs@.len(),
            out@ == a + event_lines(rs@.take(i as int)),
        decreases rs@.len() - i,
    {
        push_event_line(out, &rs[i]);
        proof {
            assert(rs@.take(i + 1).drop_last() =~= rs@.take(i as int));
        }
        i += 1;
    }
    assert(rs@.take(i as int) =~= rs@);
    assert(final(out)@ =~= old(out)@ + section(rs@.len() > 0, event_lines(rs@)));
}

fn push_session_section(out: &mut Vec<char>, rs: &Vec<SessionRow>)
    ensures
        final(out)@ == old(out)@ + section(rs@.len() > 0, session_lines(rs@)),
{
    if rs.len() == 0 {
        assert(final(out)@ =~= old(out)@ + Seq::<char>::empty());
        return;
    }
    out.push('\n');
    let ghost a = out@;
    let mut i: usize = 0;
    while i < rs.len()
        invariant
            i <= rs@.len(),
            out@ == a + session_lines(rs@.take(i as int)),
        decreases rs@.len() - i,
    {
        push_session_line(out, &rs[i]);
        proof {
            assert(rs@.take(i + 1).drop_last() =~= rs@.take(i as int));
        }
        i += 1;
    }
    assert(rs@.take(i as int) =~= rs@);
    assert(final(out)@ =~= old(out)@ + section(rs@.len() > 0, session_lines(rs@)));
}

/// Formats the campaign's records and the collection entities as the
/// campaign-notes block of the prompt.
pub fn format_entity_context(c: &CampaignRows, col: &[CollectionEntity]) -> (r: String)
    ensures
        r@ == entity_context_spec(*c, col@),
{
    if c.pcs.len() == 0 && c.npcs.len() == 0 && c.locations.len() == 0 && c.factions.len() == 0
        && c.creatures.len() == 0 && c.items.len() == 0 && c.events.len() == 0 && c.misc.len() == 0
        && c.sessions.len() == 0 && col.len() == 0 {
        return String::new();
    }
    let mut out: Vec<char> = Vec::new();
    extend_str(&mut out, NOTES_HEAD);
    push_pc_section(&mut out, &c.pcs);
    push_basic_section(&mut out, "npc", &c.npcs);
    push_basic_section(&mut out, "location", &c.locations);
    push_basic_section(&mut out, "faction", &c.factions);
    push_basic_section(&mut out, "creature", &c.creatures);
    push_basic_section(&mut out, "item", &c.items);
    push_event_section(&mut out, &c.events);
    push_basic_section(&mut out, "misc", &c.misc);
    push_session_section(&mut out, &c.sessions);
    let ghost a = out@;
    if col.len() > 0 {
        extend_str(&mut out, COLLECTION_HEAD);
        let ghost b = out@;
        let mut i: usize = 0;
        while i < col.len()
            invariant
                i <= col@.len(),
                out@ == b + collection_lines(col@.take(i as int)),
            decreases col@.len() - i,
        {
            push_basic_line(&mut out, col[i].kind.as_str(), &col[i].row);
            proof {
                assert(col@.take(i + 1).drop_last() =~= col@.take(i as int));
            }
            i += 1;
        }
        assert(col@.take(i as int) =~= col@);
        assert(out@ =~= a + (COLLECTION_HEAD@ + collection_lines(col@)));
    } else {
        assert(out@ =~= a + Seq::<char>::empty());
    }
    string_of(&out)
}

// ── Collection filter ──────────────────────────────────────────────────────

/// `s` with a backslash before every single quote.
pub open spec fn escape_single_quotes(s: Seq<char>) -> Seq<char>
    decreases s.len(),
{
    if s.len() == 0 {
        Seq::empty()
    } else {
        escape_single_quotes(s.drop_last()) + if s.last() == '\'' {
            seq!['\\', '\'']
        } else {
            seq![s.last()]
        }
    }
}

/// The condition that selects the entities of collection `cid`: from the
/// entity, back along `in_collection` to its collections (a form that
/// composes with the vector-index operator).
pub open spec fn collection_condition(cid: Seq<char>) -> Seq<char> {
    "<-in_collection<-collection CONTAINS type::thing('collection', '"@ + escape_single_quotes(cid) + "')"@
}

/// The conditions of the given collections, in order.
pub open spec fn collection_conditions(ids: Seq<String>) -> Seq<Seq<char>> {
    ids.map_values(|id: String| collection_condition(id@))
}

fn push_escaped(out: &mut Vec<char>, s: &str)
    ensures
        final(out)@ == old(out)@ + escape_single_quotes(s@),
{
    let sc = chars_of(s);
    let ghost a = out@;
    let mut i: usize = 0;
    while i < sc.len()
        invariant
            i <= sc@.len(),
            sc@ == s@,
            out@ == a + escape_single_quotes(sc@.take(i as int)),
        decreases sc@.len() - i,
    {
        if sc[i] == '\'' {
            out.push('\\');
            out.push('\'');
        } else {
            out.push(sc[i]);
        }
        proof {
            assert(sc@.take(i + 1).drop_last() =~= sc@.take(i as int));
        }
        i += 1;
        assert(out@ =~= a + escape_single_quotes(sc@.take(i as int)));
    }
    assert(sc@.take(i as int) =~= s@);
}

/// The condition that selects the entities of any of the given collections:
/// one condition per collection, joined by `" OR "`.
pub fn collection_filter(collection_ids: &[String]) -> (r: String)
    ensures
        r@ == join(collection_conditions(collection_ids@), " OR "@),
{
    let ghost ps = collection_conditions(collection_ids@);
    let mut out: Vec<char> = Vec::new();
    let mut i: usize = 0;
    while i < collection_ids.len()
        invariant
            i <= collection_ids@.len(),
            ps == collection_conditions(collection_ids@),
            out@ == join(ps.take(i as int), " OR "@),
        decreases collection_ids@.len() - i,
    {
        let ghost before = out@;
        if i > 0 {
            extend_str(&mut out, " OR ");
        }
        let ghost mid = out@;
        extend_str(&mut out, "<-in_collection<-collection CONTAINS type::thing('collection', '");
        push_escaped(&mut out, collection_ids[i].as_str());
        extend_str(&mut out, "')");
        proof {
            assert(out@ =~= mid + collection_condition(collection_ids@[i as int]@));
            assert(ps.take(i + 1).drop_last() =~= ps.take(i as int));
            if i == 0 {
                assert(ps.take(1).len() == 1);
                assert(out@ =~= ps.take(1)[0]);
            }
        }
        i += 1;
    }
    assert(ps.take(i as int) =~= ps);
    string_of(&out)
}

/// The query that reads every entity of `table` in the selected collections
/// (at most fifty), used when no query embedding is at hand.
pub fn collection_scan_sql(table: &str, filter: &str) -> (r: String)
    ensures
        r@ == "SELECT name, summary, notes FROM "@ + table@ + " WHERE "@ + filter@ + " LIMIT 50"@,
{
    let mut out: Vec<char> = Vec::new();
    extend_str(&mut out, "SELECT name, summary, notes FROM ");
    extend_str(&mut out, table);
    extend_str(&mut out, " WHERE ");
    extend_str(&mut out, filter);
    extend_str(&mut out, " LIMIT 50");
    string_of(&out)
}


// ── Laws of the campaign-notes block ───────────────────────────────────────

/// The tag that opens the line of a record of `kind`: `[kind] `.
pub open spec fn tag(kind: Seq<char>) -> Seq<char> {
    seq!['['] + kind + seq![']', ' ']
}

proof fn lemma_within(a: Seq<char>, b: Seq<char>, c: Seq<char>, n: Seq<char>)
    requires
        contains_seq(b, n),
    ensures
        contains_seq(a + b + c, n),
{
    let i = choose|i: int| occurs_at(b, n, i);
    assert((a + b + c).subrange(a.len() + i, a.len() + i + n.len()) =~= b.subrange(i, i + n.len()));
    assert(occurs_at(a + b + c, n, a.len() + i));
}

proof fn lemma_starts(b: Seq<char>, n: Seq<char>, c: Seq<char>)
    ensures
        contains_seq(n + c, n),
        contains_seq(b + (n + c), n),
{
    assert((n + c).subrange(0, n.len() as int) =~= n);
    assert(occurs_at(n + c, n, 0));
    lemma_within(b, n + c, Seq::empty(), n);
    assert(b + (n + c) + Seq::<char>::empty() =~= b + (n + c));
}

proof fn lemma_after(a: Seq<char>, b: Seq<char>, n: Seq<char>)
    requires
        contains_seq(b, n),
    ensures
        contains_seq(a + b, n),
{
    lemma_within(a, b, Seq::empty(), n);
    assert(a + b + Seq::<char>::empty() =~= a + b);
}

proof fn lemma_extend(a: Seq<char>, b: Seq<char>, n: Seq<char>)
    requires
        contains_seq(a, n),
    ensures
        contains_seq(a + b, n),
{
    lemma_within(Seq::empty(), a, b, n);
    assert(Seq::<char>::empty() + a + b =~= a + b);
}

proof fn lemma_in_section(lines: Seq<char>, n: Seq<char>)
    requires
        contains_seq(lines, n),
    ensures
        contains_seq(section(true, lines), n),
{
    lemma_within(seq!['\n'], lines, Seq::empty(), n);
    assert(seq!['\n'] + lines + Seq::<char>::empty() =~= section(true, lines));
}

proof fn lemma_basic_lines_name(kind: Seq<char>, rs: Seq<BasicRow>, i: int)
    requires
        0 <= i < rs.len(),
    ensures
        contains_seq(basic_lines(kind, rs), tag(kind) + rs[i].name@),
    decreases rs.len(),
{
    let d = rs.drop_last();
    let n = tag(kind) + rs[i].name@;
    let line = basic_line(kind, rs.last());
    if i < rs.len() - 1 {
        assert(d[i] == rs[i]);
        lemma_basic_lines_name(kind, d, i);
        lemma_within(Seq::empty(), basic_lines(kind, d), line, n);
        assert(Seq::<char>::empty() + basic_lines(kind, d) + line =~= basic_lines(kind, rs));
    } else {
        let rest = summary_part(opt_string_view(rs.last().summary)) + notes_part(opt_string_view(rs.last().notes)) + seq!['\n'];
        assert(line =~= n + rest);
        lemma_starts(basic_lines(kind, d), n, rest);
    }
}

proof fn lemma_pc_lines_name(rs: Seq<PcRow>, i: int)
    requires
        0 <= i < rs.len(),
    ensures
        contains_seq(pc_lines(rs), "[player_character] "@ + rs[i].name@),
    decreases rs.len(),
{
    let d = rs.drop_last();
    let n = "[player_character] "@ + rs[i].name@;
    let line = pc_line(rs.last());
    if i < rs.len() - 1 {
        assert(d[i] == rs[i]);
        lemma_pc_lines_name(d, i);
        lemma_within(Seq::empty(), pc_lines(d), line, n);
        assert(Seq::<char>::empty() + pc_lines(d) + line =~= pc_lines(rs));
    } else {
        let r = rs.last();
        let rest = labelled("Player: "@, opt_string_view(r.player_name)) + labelled("Class: "@, opt_string_view(r.character_class))
            + level_part(r.character_level) + labelled("Status: "@, opt_string_view(r.status)) + summary_part(
            opt_string_view(r.summary),
        ) + notes_part(opt_string_view(r.notes)) + seq!['\n'];
        assert(line =~= n + rest);
        lemma_starts(pc_lines(d), n, rest);
    }
}

proof fn lemma_event_lines_name(rs: Seq<EventRow>, i: int)
    requires
        0 <= i < rs.len(),
    ensures
        contains_seq(event_lines(rs), "[event] "@ + rs[i].name@),
    decreases rs.len(),
{
    let d = rs.drop_last();
    let n = "[event] "@ + rs[i].name@;
    let line = event_line(rs.last());
    if i < rs.len() - 1 {
        assert(d[i] == rs[i]);
        lemma_event_lines_name(d, i);
        lemma_within(Seq::empty(), event_lines(d), line, n);
        assert(Seq::<char>::empty() + event_lines(d) + line =~= event_lines(rs));
    } else {
        let r = rs.last();
        let rest = event_dates(opt_string_view(r.date_start), opt_string_view(r.date_end)) + summary_part(
            opt_string_view(r.summary),
        ) + notes_part(opt_string_view(r.notes)) + seq!['\n'];
        assert(line =~= n + rest);
        lemma_starts(event_lines(d), n, rest);
    }
}

proof fn lemma_session_lines_title(rs: Seq<SessionRow>, i: int)
    requires
        0 <= i < rs.len(),
    ensures
        contains_seq(session_lines(rs), rs[i].title@),
    decreases rs.len(),
{
    let d = rs.drop_last();
    let n = rs[i].title@;
    let line = session_line(rs.last());
    if i < rs.len() - 1 {
        assert(d[i] == rs[i]);
        lemma_session_lines_title(d, i);
        lemma_within(Seq::empty(), session_lines(d), line, n);
        assert(Seq::<char>::empty() + session_lines(d) + line =~= session_lines(rs));
    } else {
        let r = rs.last();
        let head = match r.session_number {
            Some(num) => "[session "@ + int_decimal(num as int) + seq![']', ' '],
            None => "[session] "@,
        };
        let rest = summary_part(opt_string_view(r.date_played)) + notes_part(opt_string_view(r.notes)) + seq!['\n'];
        assert(line =~= head + n + rest);
        assert(n.subrange(0, n.len() as int) =~= n);
        assert(occurs_at(n, n, 0));
        lemma_within(head, n, rest, n);
        lemma_within(session_lines(d), line, Seq::empty(), n);
        assert(session_lines(d) + line + Seq::<char>::empty() =~= session_lines(rs));
    }
}

proof fn lemma_collection_lines_name(rs: Seq<CollectionEntity>, i: int)
    requires
        0 <= i < rs.len(),
    ensures
        contains_seq(collection_lines(rs), tag(rs[i].kind@) + rs[i].row.name@),
    decreases rs.len(),
{
    let d = rs.drop_last();
    let n = tag(rs[i].kind@) + rs[i].row.name@;
    let line = basic_line(rs.last().kind@, rs.last().row);
    if i < rs.len() - 1 {
        assert(d[i] == rs[i]);
        lemma_collection_lines_name(d, i);
        lemma_within(Seq::empty(), collection_lines(d), line, n);
        assert(Seq::<char>::empty() + collection_lines(d) + line =~= collection_lines(rs));
    } else {
        let r = rs.last().row;
        let rest = summary_part(opt_string_view(r.summary)) + notes_part(opt_string_view(r.notes)) + seq!['\n'];
        assert(line =~= n + rest);
        lemma_starts(collection_lines(d), n, rest);
    }
}


#[verifier::spinoff_prover]
#[verifier::rlimit(40)]
proof fn lemma_context_lists_pcs(c: CampaignRows, col: Seq<CollectionEntity>)
    ensures
        forall|i: int| 0 <= i < c.pcs@.len() ==> contains_seq(entity_context_spec(c, col), "[player_character] "@ + (#[trigger] c.pcs@[i]).name@),
{
    let p = entity_context_spec(c, col);
    let t0 = NOTES_HEAD@;
    let t1 = section(c.pcs@.len() > 0, pc_lines(c.pcs@));
    let t2 = section(c.npcs@.len() > 0, basic_lines("npc"@, c.npcs@));
    let t3 = section(c.locations@.len() > 0, basic_lines("location"@, c.locations@));
    let t4 = section(c.factions@.len() > 0, basic_lines("faction"@, c.factions@));
    let t5 = section(c.creatures@.len() > 0, basic_lines("creature"@, c.creatures@));
    let t6 = section(c.items@.len() > 0, basic_lines("item"@, c.items@));
    let t7 = section(c.events@.len() > 0, event_lines(c.events@));
    let t8 = section(c.misc@.len() > 0, basic_lines("misc"@, c.misc@));
    let t9 = section(c.sessions@.len() > 0, session_lines(c.sessions@));
    let t10 = (if col.len() > 0 { COLLECTION_HEAD@ + collection_lines(col) } else { Seq::empty() });
    let all = t0 + t1 + t2 + t3 + t4 + t5 + t6 + t7 + t8 + t9 + t10;
    assert forall|i: int| 0 <= i < c.pcs@.len() implies contains_seq(p, "[player_character] "@ + (#[trigger] c.pcs@[i]).name@) by {
        assert(p == all);
        lemma_pc_lines_name(c.pcs@, i);
        lemma_in_section(pc_lines(c.pcs@), "[player_character] "@ + c.pcs@[i].name@);
        lemma_after(t0, t1, "[player_character] "@ + c.pcs@[i].name@);
        lemma_extend(t0 + t1, t2, "[player_character] "@ + c.pcs@[i].name@);
        lemma_extend(t0 + t1 + t2, t3, "[player_character] "@ + c.pcs@[i].name@);
        lemma_extend(t0 + t1 + t2 + t3, t4, "[player_character] "@ + c.pcs@[i].name@);
        lemma_extend(t0 + t1 + t2 + t3 + t4, t5, "[player_character] "@ + c.pcs@[i].name@);
        lemma_extend(t0 + t1 + t2 + t3 + t4 + t5, t6, "[player_character] "@ + c.pcs@[i].name@);
        lemma_extend(t0 + t1 + t2 + t3 + t4 + t5 + t6, t7, "[player_character] "@ + c.pcs@[i].name@);
        lemma_extend(t0 + t1 + t2 + t3 + t4 + t5 + t6 + t7, t8, "[player_character] "@ + c.pcs@[i].name@);
        lemma_extend(t0 + t1 + t2 + t3 + t4 + t5 + t6 + t7 + t8, t9, "[player_character] "@ + c.pcs@[i].name@);
        lemma_extend(t0 + t1 + t2 + t3 + t4 + t5 + t6 + t7 + t8 + t9, t10, "[player_character] "@ + c.pcs@[i].name@);
    }
}

#[verifier::spinoff_prover]
#[verifier::rlimit(40)]
proof fn lemma_context_lists_npcs(c: CampaignRows, col: Seq<CollectionEntity>)
    ensures
        forall|i: int| 0 <= i < c.npcs@.len() ==> contains_seq(entity_context_spec(c, col), "[npc] "@ + (#[trigger] c.npcs@[i]).name@),
{
    let p = entity_context_spec(c, col);
    let t0 = NOTES_HEAD@;
    let t1 = section(c.pcs@.len() > 0, pc_lines(c.pcs@));
    let t2 = section(c.npcs@.len() > 0, basic_lines("npc"@, c.npcs@));
    let t3 = section(c.locations@.len() > 0, basic_lines("location"@, c.locations@));
    let t4 = section(c.factions@.len() > 0, basic_lines("faction"@, c.factions@));
    let t5 = section(c.creatures@.len() > 0, basic_lines("creature"@, c.creatures@));
    let t6 = section(c.items@.len() > 0, basic_lines("item"@, c.items@));
    let t7 = section(c.events@.len() > 0, event_lines(c.events@));
    let t8 = section(c.misc@.len() > 0, basic_lines("misc"@, c.misc@));
    let t9 = section(c.sessions@.len() > 0, session_lines(c.sessions@));
    let t10 = (if col.len() > 0 { COLLECTION_HEAD@ + collection_lines(col) } else { Seq::empty() });
    let all = t0 + t1 + t2 + t3 + t4 + t5 + t6 + t7 + t8 + t9 + t10;
    assert forall|i: int| 0 <= i < c.npcs@.len() implies contains_seq(p, "[npc] "@ + (#[trigger] c.npcs@[i]).name@) by {
        assert(p == all);
        reveal_strlit("[npc] ");
        reveal_strlit("npc");
        assert(tag("npc"@) =~= "[npc] "@);
        lemma_basic_lines_name("npc"@, c.npcs@, i);
        lemma_in_section(basic_lines("npc"@, c.npcs@), "[npc] "@ + c.npcs@[i].name@);
        lemma_after(t0 + t1, t2, "[npc] "@ + c.npcs@[i].name@);
        lemma_extend(t0 + t1 + t2, t3, "[npc] "@ + c.npcs@[i].name@);
        lemma_extend(t0 + t1 + t2 + t3, t4, "[npc] "@ + c.npcs@[i].name@);
        lemma_extend(t0 + t1 + t2 + t3 + t4, t5, "[npc] "@ + c.npcs@[i].name@);
        lemma_extend(t0 + t1 + t2 + t3 + t4 + t5, t6, "[npc] "@ + c.npcs@[i].name@);
        lemma_extend(t0 + t1 + t2 + t3 + t4 + t5 + t6, t7, "[npc] "@ + c.npcs@[i].name@);
        lemma_extend(t0 + t1 + t2 + t3 + t4 + t5 + t6 + t7, t8, "[npc] "@ + c.npcs@[i].name@);
        lemma_extend(t0 + t1 + t2 + t3 + t4 + t5 + t6 + t7 + t8, t9, "[npc] "@ + c.npcs@[i].name@);
        lemma_extend(t0 + t1 + t2 + t3 + t4 + t5 + t6 + t7 + t8 + t9, t10, "[npc] "@ + c.npcs@[i].name@);
    }
}

#[verifier::spinoff_prover]
#[verifier::rlimit(40)]
proof fn lemma_context_lists_locations(c: CampaignRows, col: Seq<CollectionEntity>)
    ensures
        forall|i: int| 0 <= i < c.locations@.len() ==> contains_seq(entity_context_spec(c, col), "[location] "@ + (#[trigger] c.locations@[i]).name@),
{
    let p = entity_context_spec(c, col);
    let t0 = NOTES_HEAD@;
    let t1 = section(c.pcs@.len() > 0, pc_lines(c.pcs@));
    let t2 = section(c.npcs@.len() > 0, basic_lines("npc"@, c.npcs@));
    let t3 = section(c.locations@.len() > 0, basic_lines("location"@, c.locations@));
    let t4 = section(c.factions@.len() > 0, basic_lines("faction"@, c.factions@));
    let t5 = section(c.creatures@.len() > 0, basic_lines("creature"@, c.creatures@));
    let t6 = section(c.items@.len() > 0, basic_lines("item"@, c.items@));
    let t7 = section(c.events@.len() > 0, event_lines(c.events@));
    let t8 = section(c.misc@.len() > 0, basic_lines("misc"@, c.misc@));
    let t9 = section(c.sessions@.len() > 0, session_lines(c.sessions@));
    let t10 = (if col.len() > 0 { COLLECTION_HEAD@ + collection_lines(col) } else { Seq::empty() });
    let all = t0 + t1 + t2 + t3 + t4 + t5 + t6 + t7 + t8 + t9 + t10;
    assert forall|i: int| 0 <= i < c.locations@.len() implies contains_seq(p, "[location] "@ + (#[trigger] c.locations@[i]).name@) by {
        assert(p == all);
        reveal_strlit("[location] ");
        reveal_strlit("location");
        assert(tag("location"@) =~= "[location] "@);
        lemma_basic_lines_name("location"@, c.locations@, i);
        lemma_in_section(basic_lines("location"@, c.locations@), "[location] "@ + c.locations@[i].name@);
        lemma_after(t0 + t1 + t2, t3, "[location] "@ + c.locations@[i].name@);
        lemma_extend(t0 + t1 + t2 + t3, t4, "[location] "@ + c.locations@[i].name@);
        lemma_extend(t0 + t1 + t2 + t3 + t4, t5, "[location] "@ + c.locations@[i].name@);
        lemma_extend(t0 + t1 + t2 + t3 + t4 + t5, t6, "[location] "@ + c.locations@[i].name@);
        lemma_extend(t0 + t1 + t2 + t3 + t4 + t5 + t6, t7, "[location] "@ + c.locations@[i].name@);
        lemma_extend(t0 + t1 + t2 + t3 + t4 + t5 + t6 + t7, t8, "[location] "@ + c.locations@[i].name@);
        lemma_extend(t0 + t1 + t2 + t3 + t4 + t5 + t6 + t7 + t8, t9, "[location] "@ + c.locations@[i].name@);
        lemma_extend(t0 + t1 + t2 + t3 + t4 + t5 + t6 + t7 + t8 + t9, t10, "[location] "@ + c.locations@[i].name@);
    }
}

#[verifier::spinoff_prover]
#[verifier::rlimit(40)]
proof fn lemma_context_lists_factions(c: CampaignRows, col: Seq<CollectionEntity>)
    ensures
        forall|i: int| 0 <= i < c.factions@.len() ==> contains_seq(entity_context_spec(c, col), "[faction] "@ + (#[trigger] c.factions@[i]).name@),
{
    let p = entity_context_spec(c, col);
    let t0 = NOTES_HEAD@;
    let t1 = section(c.pcs@.len() > 0, pc_lines(c.pcs@));
    let t2 = section(c.npcs@.len() > 0, basic_lines("npc"@, c.npcs@));
    let t3 = section(c.locations@.len() > 0, basic_lines("location"@, c.locations@));
    let t4 = section(c.factions@.len() > 0, basic_lines("faction"@, c.factions@));
    let t5 = section(c.creatures@.len() > 0, basic_lines("creature"@, c.creatures@));
    let t6 = section(c.items@.len() > 0, basic_lines("item"@, c.items@));
    let t7 = section(c.events@.len() > 0, event_lines(c.events@));
    let t8 = section(c.misc@.len() > 0, basic_lines("misc"@, c.misc@));
    let t9 = section(c.sessions@.len() > 0, session_lines(c.sessions@));
    let t10 = (if col.len() > 0 { COLLECTION_HEAD@ + collection_lines(col) } else { Seq::empty() });
    let all = t0 + t1 + t2 + t3 + t4 + t5 + t6 + t7 + t8 + t9 + t10;
    assert forall|i: int| 0 <= i < c.factions@.len() implies contains_seq(p, "[faction] "@ + (#[trigger] c.factions@[i]).name@) by {
        assert(p == all);
        reveal_strlit("[faction] ");
        reveal_strlit("faction");
        assert(tag("faction"@) =~= "[faction] "@);
        lemma_basic_lines_name("faction"@, c.factions@, i);
        lemma_in_section(basic_lines("faction"@, c.factions@), "[faction] "@ + c.factions@[i].name@);
        lemma_after(t0 + t1 + t2 + t3, t4, "[faction] "@ + c.factions@[i].name@);
        lemma_extend(t0 + t1 + t2 + t3 + t4, t5, "[faction] "@ + c.factions@[i].name@);
        lemma_extend(t0 + t1 + t2 + t3 + t4 + t5, t6, "[faction] "@ + c.factions@[i].name@);
        lemma_extend(t0 + t1 + t2 + t3 + t4 + t5 + t6, t7, "[faction] "@ + c.factions@[i].name@);
        lemma_extend(t0 + t1 + t2 + t3 + t4 + t5 + t6 + t7, t8, "[faction] "@ + c.factions@[i].name@);
        lemma_extend(t0 + t1 + t2 + t3 + t4 + t5 + t6 + t7 + t8, t9, "[faction] "@ + c.factions@[i].name@);
        lemma_extend(t0 + t1 + t2 + t3 + t4 + t5 + t6 + t7 + t8 + t9, t10, "[faction] "@ + c.factions@[i].name@);
    }
}

#[verifier::spinoff_prover]
#[verifier::rlimit(40)]
proof fn lemma_context_lists_creatures(c: CampaignRows, col: Seq<CollectionEntity>)
    ensures
        forall|i: int| 0 <= i < c.creatures@.len() ==> contains_seq(entity_context_spec(c, col), "[creature] "@ + (#[trigger] c.creatures@[i]).name@),
{
    let p = entity_context_spec(c, col);
    let t0 = NOTES_HEAD@;
    let t1 = section(c.pcs@.len() > 0, pc_lines(c.pcs@));
    let t2 = section(c.npcs@.len() > 0, basic_lines("npc"@, c.npcs@));
    let t3 = section(c.locations@.len() > 0, basic_lines("location"@, c.locations@));
    let t4 = section(c.factions@.len() > 0, basic_lines("faction"@, c.factions@));
    let t5 = section(c.creatures@.len() > 0, basic_lines("creature"@, c.creatures@));
    let t6 = section(c.items@.len() > 0, basic_lines("item"@, c.items@));
    let t7 = section(c.events@.len() > 0, event_lines(c.events@));
    let t8 = section(c.misc@.len() > 0, basic_lines("misc"@, c.misc@));
    let t9 = section(c.sessions@.len() > 0, session_lines(c.sessions@));
    let t10 = (if col.len() > 0 { COLLECTION_HEAD@ + collection_lines(col) } else { Seq::empty() });
    let all = t0 + t1 + t2 + t3 + t4 + t5 + t6 + t7 + t8 + t9 + t10;
    assert forall|i: int| 0 <= i < c.creatures@.len() implies contains_seq(p, "[creature] "@ + (#[trigger] c.creatures@[i]).name@) by {
        assert(p == all);
        reveal_strlit("[creature] ");
        reveal_strlit("creature");
        assert(tag("creature"@) =~= "[creature] "@);
        lemma_basic_lines_name("creature"@, c.creatures@, i);
        lemma_in_section(basic_lines("creature"@, c.creatures@), "[creature] "@ + c.creatures@[i].name@);
        lemma_after(t0 + t1 + t2 + t3 + t4, t5, "[creature] "@ + c.creatures@[i].name@);
        lemma_extend(t0 + t1 + t2 + t3 + t4 + t5, t6, "[creature] "@ + c.creatures@[i].name@);
        lemma_extend(t0 + t1 + t2 + t3 + t4 + t5 + t6, t7, "[creature] "@ + c.creatures@[i].name@);
        lemma_extend(t0 + t1 + t2 + t3 + t4 + t5 + t6 + t7, t8, "[creature] "@ + c.creatures@[i].name@);
        lemma_extend(t0 + t1 + t2 + t3 + t4 + t5 + t6 + t7 + t8, t9, "[creature] "@ + c.creatures@[i].name@);
        lemma_extend(t0 + t1 + t2 + t3 + t4 + t5 + t6 + t7 + t8 + t9, t10, "[creature] "@ + c.creatures@[i].name@);
    }
}

#[verifier::spinoff_prover]
#[verifier::rlimit(40)]
proof fn lemma_context_lists_items(c: CampaignRows, col: Seq<CollectionEntity>)
    ensures
        forall|i: int| 0 <= i < c.items@.len() ==> contains_seq(entity_context_spec(c, col), "[item] "@ + (#[trigger] c.items@[i]).name@),
{
    let p = entity_context_spec(c, col);
    let t0 = NOTES_HEAD@;
    let t1 = section(c.pcs@.len() > 0, pc_lines(c.pcs@));
    let t2 = section(c.npcs@.len() > 0, basic_lines("npc"@, c.npcs@));
    let t3 = section(c.locations@.len() > 0, basic_lines("location"@, c.locations@));
    let t4 = section(c.factions@.len() > 0, basic_lines("faction"@, c.factions@));
    let t5 = section(c.creatures@.len() > 0, basic_lines("creature"@, c.creatures@));
    let t6 = section(c.items@.len() > 0, basic_lines("item"@, c.items@));
    let t7 = section(c.events@.len() > 0, event_lines(c.events@));
    let t8 = section(c.misc@.len() > 0, basic_lines("misc"@, c.misc@));
    let t9 = section(c.sessions@.len() > 0, session_lines(c.sessions@));
    let t10 = (if col.len() > 0 { COLLECTION_HEAD@ + collection_lines(col) } else { Seq::empty() });
    let all = t0 + t1 + t2 + t3 + t4 + t5 + t6 + t7 + t8 + t9 + t10;
    assert forall|i: int| 0 <= i < c.items@.len() implies contains_seq(p, "[item] "@ + (#[trigger] c.items@[i]).name@) by {
        assert(p == all);
        reveal_strlit("[item] ");
        reveal_strlit("item");
        assert(tag("item"@) =~= "[item] "@);
        lemma_basic_lines_name("item"@, c.items@, i);
        lemma_in_section(basic_lines("item"@, c.items@), "[item] "@ + c.items@[i].name@);
        lemma_after(t0 + t1 + t2 + t3 + t4 + t5, t6, "[item] "@ + c.items@[i].name@);
        lemma_extend(t0 + t1 + t2 + t3 + t4 + t5 + t6, t7, "[item] "@ + c.items@[i].name@);
        lemma_extend(t0 + t1 + t2 + t3 + t4 + t5 + t6 + t7, t8, "[item] "@ + c.items@[i].name@);
        lemma_extend(t0 + t1 + t2 + t3 + t4 + t5 + t6 + t7 + t8, t9, "[item] "@ + c.items@[i].name@);
        lemma_extend(t0 + t1 + t2 + t3 + t4 + t5 + t6 + t7 + t8 + t9, t10, "[item] "@ + c.items@[i].name@);
    }
}

#[verifier::spinoff_prover]
#[verifier::rlimit(40)]
proof fn lemma_context_lists_misc(c: CampaignRows, col: Seq<CollectionEntity>)
    ensures
        forall|i: int| 0 <= i < c.misc@.len() ==> contains_seq(entity_context_spec(c, col), "[misc] "@ + (#[trigger] c.misc@[i]).name@),
{
    let p = entity_context_spec(c, col);
    let t0 = NOTES_HEAD@;
    let t1 = section(c.pcs@.len() > 0, pc_lines(c.pcs@));
    let t2 = section(c.npcs@.len() > 0, basic_lines("npc"@, c.npcs@));
    let t3 = section(c.locations@.len() > 0, basic_lines("location"@, c.locations@));
    let t4 = section(c.factions@.len() > 0, basic_lines("faction"@, c.factions@));
    let t5 = section(c.creatures@.len() > 0, basic_lines("creature"@, c.creatures@));
    let t6 = section(c.items@.len() > 0, basic_lines("item"@, c.items@));
    let t7 = section(c.events@.len() > 0, event_lines(c.events@));
    let t8 = section(c.misc@.len() > 0, basic_lines("misc"@, c.misc@));
    let t9 = section(c.sessions@.len() > 0, session_lines(c.sessions@));
    let t10 = (if col.len() > 0 { COLLECTION_HEAD@ + collection_lines(col) } else { Seq::empty() });
    let all = t0 + t1 + t2 + t3 + t4 + t5 + t6 + t7 + t8 + t9 + t10;
    assert forall|i: int| 0 <= i < c.misc@.len() implies contains_seq(p, "[misc] "@ + (#[trigger] c.misc@[i]).name@) by {
        assert(p == all);
        reveal_strlit("[misc] ");
        reveal_strlit("misc");
        assert(tag("misc"@) =~= "[misc] "@);
        lemma_basic_lines_name("misc"@, c.misc@, i);
        lemma_in_section(basic_lines("misc"@, c.misc@), "[misc] "@ + c.misc@[i].name@);
        lemma_after(t0 + t1 + t2 + t3 + t4 + t5 + t6 + t7, t8, "[misc] "@ + c.misc@[i].name@);
        lemma_extend(t0 + t1 + t2 + t3 + t4 + t5 + t6 + t7 + t8, t9, "[misc] "@ + c.misc@[i].name@);
        lemma_extend(t0 + t1 + t2 + t3 + t4 + t5 + t6 + t7 + t8 + t9, t10, "[misc] "@ + c.misc@[i].name@);
    }
}

#[verifier::spinoff_prover]
#[verifier::rlimit(40)]
proof fn lemma_context_lists_events(c: CampaignRows, col: Seq<CollectionEntity>)
    ensures
        forall|i: int| 0 <= i < c.events@.len() ==> contains_seq(entity_context_spec(c, col), "[event] "@ + (#[trigger] c.events@[i]).name@),
{
    let p = entity_context_spec(c, col);
    let t0 = NOTES_HEAD@;
    let t1 = section(c.pcs@.len() > 0, pc_lines(c.pcs@));
    let t2 = section(c.npcs@.len() > 0, basic_lines("npc"@, c.npcs@));
    let t3 = section(c.locations@.len() > 0, basic_lines("location"@, c.locations@));
    let t4 = section(c.factions@.len() > 0, basic_lines("faction"@, c.factions@));
    let t5 = section(c.creatures@.len() > 0, basic_lines("creature"@, c.creatures@));
    let t6 = section(c.items@.len() > 0, basic_lines("item"@, c.items@));
    let t7 = section(c.events@.len() > 0, event_lines(c.events@));
    let t8 = section(c.misc@.len() > 0, basic_lines("misc"@, c.misc@));
    let t9 = section(c.sessions@.len() > 0, session_lines(c.sessions@));
    let t10 = (if col.len() > 0 { COLLECTION_HEAD@ + collection_lines(col) } else { Seq::empty() });
    let all = t0 + t1 + t2 + t3 + t4 + t5 + t6 + t7 + t8 + t9 + t10;
    assert forall|i: int| 0 <= i < c.events@.len() implies contains_seq(p, "[event] "@ + (#[trigger] c.events@[i]).name@) by {
        assert(p == all);
        lemma_event_lines_name(c.events@, i);
        lemma_in_section(event_lines(c.events@), "[event] "@ + c.events@[i].name@);
        lemma_after(t0 + t1 + t2 + t3 + t4 + t5 + t6, t7, "[event] "@ + c.events@[i].name@);
        lemma_extend(t0 + t1 + t2 + t3 + t4 + t5 + t6 + t7, t8, "[event] "@ + c.events@[i].name@);
        lemma_extend(t0 + t1 + t2 + t3 + t4 + t5 + t6 + t7 + t8, t9, "[event] "@ + c.events@[i].name@);
        lemma_extend(t0 + t1 + t2 + t3 + t4 + t5 + t6 + t7 + t8 + t9, t10, "[event] "@ + c.events@[i].name@);
    }
}

#[verifier::spinoff_prover]
#[verifier::rlimit(40)]
proof fn lemma_context_lists_sessions(c: CampaignRows, col: Seq<CollectionEntity>)
    ensures
        forall|i: int| 0 <= i < c.sessions@.len() ==> contains_seq(entity_context_spec(c, col), (#[trigger] c.sessions@[i]).title@),
{
    let p = entity_context_spec(c, col);
    let t0 = NOTES_HEAD@;
    let t1 = section(c.pcs@.len() > 0, pc_lines(c.pcs@));
    let t2 = section(c.npcs@.len() > 0, basic_lines("npc"@, c.npcs@));
    let t3 = section(c.locations@.len() > 0, basic_lines("location"@, c.locations@));
    let t4 = section(c.factions@.len() > 0, basic_lines("faction"@, c.factions@));
    let t5 = section(c.creatures@.len() > 0, basic_lines("creature"@, c.creatures@));
    let t6 = section(c.items@.len() > 0, basic_lines("item"@, c.items@));
    let t7 = section(c.events@.len() > 0, event_lines(c.events@));
    let t8 = section(c.misc@.len() > 0, basic_lines("misc"@, c.misc@));
    let t9 = section(c.sessions@.len() > 0, session_lines(c.sessions@));
    let t10 = (if col.len() > 0 { COLLECTION_HEAD@ + collection_lines(col) } else { Seq::empty() });
    let all = t0 + t1 + t2 + t3 + t4 + t5 + t6 + t7 + t8 + t9 + t10;
    assert forall|i: int| 0 <= i < c.sessions@.len() implies contains_seq(p, (#[trigger] c.sessions@[i]).title@) by {
        assert(p == all);
        lemma_session_lines_title(c.sessions@, i);
        lemma_in_section(session_lines(c.sessions@), c.sessions@[i].title@);
        lemma_after(t0 + t1 + t2 + t3 + t4 + t5 + t6 + t7 + t8, t9, c.sessions@[i].title@);
        lemma_extend(t0 + t1 + t2 + t3 + t4 + t5 + t6 + t7 + t8 + t9, t10, c.sessions@[i].title@);
    }
}

#[verifier::spinoff_prover]
#[verifier::rlimit(40)]
proof fn lemma_context_lists_collection(c: CampaignRows, col: Seq<CollectionEntity>)
    ensures
        forall|i: int| 0 <= i < col.len() ==> contains_seq(entity_context_spec(c, col), tag((#[trigger] col[i]).kind@) + col[i].row.name@),
{
    let p = entity_context_spec(c, col);
    let t0 = NOTES_HEAD@;
    let t1 = section(c.pcs@.len() > 0, pc_lines(c.pcs@));
    let t2 = section(c.npcs@.len() > 0, basic_lines("npc"@, c.npcs@));
    let t3 = section(c.locations@.len() > 0, basic_lines("location"@, c.locations@));
    let t4 = section(c.factions@.len() > 0, basic_lines("faction"@, c.factions@));
    let t5 = section(c.creatures@.len() > 0, basic_lines("creature"@, c.creatures@));
    let t6 = section(c.items@.len() > 0, basic_lines("item"@, c.items@));
    let t7 = section(c.events@.len() > 0, event_lines(c.events@));
    let t8 = section(c.misc@.len() > 0, basic_lines("misc"@, c.misc@));
    let t9 = section(c.sessions@.len() > 0, session_lines(c.sessions@));
    let t10 = (if col.len() > 0 { COLLECTION_HEAD@ + collection_lines(col) } else { Seq::empty() });
    let all = t0 + t1 + t2 + t3 + t4 + t5 + t6 + t7 + t8 + t9 + t10;
    assert forall|i: int| 0 <= i < col.len() implies contains_seq(p, tag((#[trigger] col[i]).kind@) + col[i].row.name@) by {
        assert(p == all);
        lemma_collection_lines_name(col, i);
        lemma_within(COLLECTION_HEAD@, collection_lines(col), Seq::empty(), tag(col[i].kind@) + col[i].row.name@);
        assert(COLLECTION_HEAD@ + collection_lines(col) + Seq::<char>::empty() =~= t10);
        lemma_after(t0 + t1 + t2 + t3 + t4 + t5 + t6 + t7 + t8 + t9, t10, tag(col[i].kind@) + col[i].row.name@);
    }
}

/// Every record handed to the context builder appears in the campaign-notes
/// block: each player character, NPC, location, faction, creature, item,
/// event and miscellaneous record as `[kind] ` followed by its name, each
/// session by its title, and each collection entity as `[kind] ` and its
/// name.
pub proof fn lemma_entity_context_lists_every_record(c: CampaignRows, col: Seq<CollectionEntity>)
    ensures
        forall|i: int| 0 <= i < c.pcs@.len() ==> contains_seq(entity_context_spec(c, col), "[player_character] "@ + (#[trigger] c.pcs@[i]).name@),
        forall|i: int| 0 <= i < c.npcs@.len() ==> contains_seq(entity_context_spec(c, col), "[npc] "@ + (#[trigger] c.npcs@[i]).name@),
        forall|i: int| 0 <= i < c.locations@.len() ==> contains_seq(entity_context_spec(c, col), "[location] "@ + (#[trigger] c.locations@[i]).name@),
        forall|i: int| 0 <= i < c.factions@.len() ==> contains_seq(entity_context_spec(c, col), "[faction] "@ + (#[trigger] c.factions@[i]).name@),
        forall|i: int| 0 <= i < c.creatures@.len() ==> contains_seq(entity_context_spec(c, col), "[creature] "@ + (#[trigger] c.creatures@[i]).name@),
        forall|i: int| 0 <= i < c.items@.len() ==> contains_seq(entity_context_spec(c, col), "[item] "@ + (#[trigger] c.items@[i]).name@),
        forall|i: int| 0 <= i < c.misc@.len() ==> contains_seq(entity_context_spec(c, col), "[misc] "@ + (#[trigger] c.misc@[i]).name@),
        forall|i: int| 0 <= i < c.events@.len() ==> contains_seq(entity_context_spec(c, col), "[event] "@ + (#[trigger] c.events@[i]).name@),
        forall|i: int| 0 <= i < c.sessions@.len() ==> contains_seq(entity_context_spec(c, col), (#[trigger] c.sessions@[i]).title@),
        forall|i: int| 0 <= i < col.len() ==> contains_seq(entity_context_spec(c, col), tag((#[trigger] col[i]).kind@) + col[i].row.name@),
{
    lemma_context_lists_pcs(c, col);
    lemma_context_lists_npcs(c, col);
    lemma_context_lists_locations(c, col);
    lemma_context_lists_factions(c, col);
    lemma_context_lists_creatures(c, col);
    lemma_context_lists_items(c, col);
    lemma_context_lists_misc(c, col);
    lemma_context_lists_events(c, col);
    lemma_context_lists_sessions(c, col);
    lemma_context_lists_collection(c, col);
}

} // verus!
