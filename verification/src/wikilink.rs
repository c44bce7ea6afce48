//! `[[name]]` wikilinks in notes: finding them, resolving them to record
//! ids of the entities in scope, and the identifier checks and statements
//! that keep the `mentioned` edges in step with the notes.
use vstd::prelude::*;
use vstd::string::StrSliceExecFns;
use crate::order::{lex_le, lex_le_chars, lemma_lex_antisym, lemma_lex_total, lemma_lex_trans};
use crate::text::{chars_eq, chars_of, extend_str, slice_chars, str_eq, string_of, trim, trim_chars};
use crate::unicode::{lowercase, to_lowercase};

verus! {

// ── Errors and scope ───────────────────────────────────────────────────────

/// Failures of wikilink handling.
#[derive(Debug)]
pub enum WikilinkError {
    Database { message: String },
    InvalidIdentifier { value: String },
    MalformedRecordId { value: String },
}

/// Which entities a wikilink may resolve to.
pub enum WikilinkScope<'a> {
    /// Entities of the campaign and of the collections it subscribes to.
    Campaign { campaign_id: &'a str },
    /// Entities of the same collection only.
    Collection { collection_id: &'a str },
}

/// The scope in which the wikilinks of a new or changed entity resolve: its
/// campaign when it has one, else its collection, else none.
pub fn wikilink_scope<'a>(campaign_id: Option<&'a str>, collection_id: Option<&'a str>) -> (r: Option<WikilinkScope<'a>>)
    ensures
        campaign_id matches Some(c) ==> (r matches Some(WikilinkScope::Campaign { campaign_id: x }) && x@ == c@),
        campaign_id is None ==> (collection_id matches Some(c) ==> (r matches Some(WikilinkScope::Collection { collection_id: x }) && x@ == c@)),
        campaign_id is None && collection_id is None ==> r is None,
{
    match (campaign_id, collection_id) {
        (Some(c), _) => Some(WikilinkScope::Campaign { campaign_id: c }),
        (None, Some(c)) => Some(WikilinkScope::Collection { collection_id: c }),
        (None, None) => None,
    }
}

/// The tables that hold entities.
pub const ENTITY_TABLES: [&'static str; 8] = ["npc", "location", "faction", "creature", "item", "event", "player_character", "misc"];

/// True when `t` names one of the entity tables.
pub fn is_entity_table(t: &str) -> (r: bool)
    ensures
        r == crate::entity::kind_for_table(t@) is Some,
{
    match crate::entity::EntityKind::from_table(t) {
        Ok(_) => true,
        Err(_) => false,
    }
}

// ── Identifiers ────────────────────────────────────────────────────────────

/// An identifier that may be placed in a query: not empty, and only ASCII
/// letters, digits and `_`.
pub open spec fn valid_identifier(s: Seq<char>) -> bool {
    s.len() > 0 && forall|k: int| 0 <= k < s.len() ==> ident_char(#[trigger] s[k])
}

pub open spec fn ident_char(c: char) -> bool {
    ('a' <= c && c <= 'z') || ('A' <= c && c <= 'Z') || ('0' <= c && c <= '9') || c == '_'
}

/// Accepts an identifier made of `[a-zA-Z0-9_]` only; anything else is
/// `InvalidIdentifier` carrying the value.
pub fn validate_identifier(s: &str) -> (r: Result<(), WikilinkError>)
    ensures
        r is Ok <==> valid_identifier(s@),
        r matches Err(e) ==> (e matches WikilinkError::InvalidIdentifier { value } && value@ == s@),
{
    let cs = chars_of(s);
    let mut ok = cs.len() > 0;
    let mut i: usize = 0;
    while i < cs.len()
        invariant
            i <= cs@.len(),
            cs@ == s@,
            ok == (cs@.len() > 0 && forall|k: int| 0 <= k < i ==> ident_char(#[trigger] cs@[k])),
        decreases cs@.len() - i,
    {
        let c = cs[i];
        let good = ('a' <= c && c <= 'z') || ('A' <= c && c <= 'Z') || ('0' <= c && c <= '9') || c == '_';
        if !good {
            ok = false;
        }
        i += 1;
    }
    if ok {
        Ok(())
    } else {
        Err(WikilinkError::InvalidIdentifier { value: s.to_owned() })
    }
}

/// The index of the first colon of `s`, if any.
pub open spec fn first_colon(s: Seq<char>) -> Option<int> {
    if exists|k: int| 0 <= k < s.len() && s[k] == ':' {
        Some(choose|k: int| 0 <= k < s.len() && s[k] == ':' && forall|j: int| 0 <= j < k ==> s[j] != ':')
    } else {
        None
    }
}

proof fn lemma_first_colon(s: Seq<char>, k: int)
    requires
        0 <= k < s.len(),
        s[k] == ':',
        forall|j: int| 0 <= j < k ==> s[j] != ':',
    ensures
        first_colon(s) == Some(k),
{
    let c = choose|c: int| 0 <= c < s.len() && s[c] == ':' && forall|j: int| 0 <= j < c ==> s[j] != ':';
    if c < k {
        assert(s[c] != ':');
    }
    if c > k {
        assert(s[k] != ':');
    }
}

proof fn lemma_first_colon_exists(s: Seq<char>, i: int)
    requires
        0 <= i < s.len(),
        s[i] == ':',
    ensures
        exists|k: int| 0 <= k < s.len() && s[k] == ':' && forall|j: int| 0 <= j < k ==> s[j] != ':',
    decreases i,
{
    if exists|j: int| 0 <= j < i && s[j] == ':' {
        let j = choose|j: int| 0 <= j < i && s[j] == ':';
        lemma_first_colon_exists(s, j);
    } else {
        assert(forall|j: int| 0 <= j < i ==> s[j] != ':');
    }
}

/// A record id is its table part, a colon and its id part: splitting at
/// the first colon and joining the parts with `:` gives the id back, and
/// the table part holds no colon. Without a colon there is nothing to split.
pub proof fn lemma_split_record_roundtrip(s: Seq<char>)
    ensures
        match first_colon(s) {
            Some(k) => s.take(k) + seq![':'] + s.skip(k + 1) == s && !s.take(k).contains(':'),
            None => !s.contains(':'),
        },
{
    if exists|k: int| 0 <= k < s.len() && s[k] == ':' {
        let i = choose|k: int| 0 <= k < s.len() && s[k] == ':';
        lemma_first_colon_exists(s, i);
        let k = first_colon(s)->0;
        assert(s.take(k) + seq![':'] + s.skip(k + 1) =~= s);
        assert forall|j: int| 0 <= j < s.take(k).len() implies s.take(k)[j] != ':' by {
            assert(s.take(k)[j] == s[j]);
        }
    } else {
        assert forall|j: int| 0 <= j < s.len() implies s[j] != ':' by {}
    }
}

/// Splits `table:id` at its first colon; without a colon the value is a
/// `MalformedRecordId`.
pub fn split_record_id(full_id: &str) -> (r: Result<(&str, &str), WikilinkError>)
    ensures
        match r {
            Ok((t, i)) => first_colon(full_id@) matches Some(k) && t@ == full_id@.take(k) && i@ == full_id@.skip(k + 1),
            Err(e) => first_colon(full_id@) is None && (e matches WikilinkError::MalformedRecordId { value } && value@ == full_id@),
        },
{
    let cs = chars_of(full_id);
    let mut k: usize = 0;
    while k < cs.len() && cs[k] != ':'
        invariant
            k <= cs@.len(),
            cs@ == full_id@,
            forall|j: int| 0 <= j < k ==> cs@[j] != ':',
        decreases cs@.len() - k,
    {
        k += 1;
    }
    if k == cs.len() {
        return Err(WikilinkError::MalformedRecordId { value: full_id.to_owned() });
    }
    proof {
        lemma_first_colon(full_id@, k as int);
    }
    let t = full_id.substring_char(0, k);
    let i = full_id.substring_char(k + 1, cs.len());
    assert(t@ =~= full_id@.take(k as int));
    assert(i@ =~= full_id@.skip(k + 1));
    Ok((t, i))
}

/// Accepts `table:id` when both parts are valid identifiers.
pub fn validate_record_id(s: &str) -> (r: Result<(), WikilinkError>)
    ensures
        r is Ok <==> (first_colon(s@) matches Some(k) && valid_identifier(s@.take(k)) && valid_identifier(s@.skip(k + 1))),
{
    let (table, id) = split_record_id(s)?;
    validate_identifier(table)?;
    validate_identifier(id)?;
    Ok(())
}

/// The views of character vectors.
pub open spec fn char_views(v: Seq<Vec<char>>) -> Seq<Seq<char>> {
    v.map_values(|x: Vec<char>| x@)
}

/// The views of strings.
pub open spec fn string_views(v: Seq<String>) -> Seq<Seq<char>> {
    v.map_values(|x: String| x@)
}

// ── Finding wikilinks ──────────────────────────────────────────────────────

/// First index `>= i` holding `[` or `]` (or the length).
pub open spec fn bracket_free_end(s: Seq<char>, i: int) -> int
    decreases s.len() - i,
{
    if 0 <= i < s.len() && s[i] != '[' && s[i] != ']' {
        bracket_free_end(s, i + 1)
    } else {
        i
    }
}

/// A wikilink at `p`: `[[`, one or more characters other than brackets,
/// `]]`. Gives where its text ends.
pub open spec fn link_at(s: Seq<char>, p: int) -> Option<int> {
    if 0 <= p && p + 2 <= s.len() && s[p] == '[' && s[p + 1] == '[' {
        let r = bracket_free_end(s, p + 2);
        if r > p + 2 && r + 2 <= s.len() && s[r] == ']' && s[r + 1] == ']' {
            Some(r)
        } else {
            None
        }
    } else {
        None
    }
}

/// The texts of the wikilinks of `s` from index `i` on, leftmost first and
/// without overlap.
pub open spec fn links_from(s: Seq<char>, i: int) -> Seq<Seq<char>>
    decreases s.len() - i,
{
    if 0 <= i < s.len() {
        match link_at(s, i) {
            Some(r) => if r > i {
                seq![s.subrange(i + 2, r)] + links_from(s, r + 2)
            } else {
                Seq::empty()
            },
            None => links_from(s, i + 1),
        }
    } else {
        Seq::empty()
    }
}

/// The trimmed texts, blank ones left out.
pub open spec fn trimmed_nonblank(ls: Seq<Seq<char>>) -> Seq<Seq<char>>
    decreases ls.len(),
{
    if ls.len() == 0 {
        Seq::empty()
    } else {
        let prev = trimmed_nonblank(ls.drop_last());
        if trim(ls.last()).len() > 0 {
            prev.push(trim(ls.last()))
        } else {
            prev
        }
    }
}

fn bracket_free_end_exec(s: &Vec<char>, i: usize) -> (r: usize)
    requires
        i <= s@.len(),
    ensures
        r == bracket_free_end(s@, i as int),
        i <= r <= s@.len(),
{
    let mut j = i;
    while j < s.len() && s[j] != '[' && s[j] != ']'
        invariant
            i <= j <= s@.len(),
            bracket_free_end(s@, i as int) == bracket_free_end(s@, j as int),
        decreases s@.len() - j,
    {
        j += 1;
    }
    j
}

fn link_at_exec(s: &Vec<char>, p: usize) -> (r: Option<usize>)
    requires
        p < s@.len(),
    ensures
        match r {
            Some(e) => link_at(s@, p as int) == Some(e as int) && p + 2 < e && e + 2 <= s@.len(),
            None => link_at(s@, p as int) is None,
        },
{
    let n = s.len();
    if n - p >= 2 && s[p] == '[' && s[p + 1] == '[' {
        let r = bracket_free_end_exec(s, p + 2);
        if r > p + 2 && n - r >= 2 && s[r] == ']' && s[r + 1] == ']' {
            Some(r)
        } else {
            None
        }
    } else {
        None
    }
}

/// The raw texts of the wikilinks of `notes`, in order.
fn raw_links(s: &Vec<char>) -> (r: Vec<Vec<char>>)
    ensures
        char_views(r@) == links_from(s@, 0),
{
    let mut out: Vec<Vec<char>> = Vec::new();
    let mut i: usize = 0;
    while i < s.len()
        invariant
            i <= s@.len(),
            links_from(s@, 0) == char_views(out@) + links_from(s@, i as int),
        decreases s@.len() - i,
    {
        match link_at_exec(s, i) {
            Some(r) => {
                let t = slice_chars(s, i + 2, r);
                let ghost prev = out@;
                out.push(t);
                assert(char_views(out@) =~= prev.map_values(|v: Vec<char>| v@)
                    + seq![t@]);
                i = r + 2;
            },
            None => {
                i += 1;
            },
        }
    }
    assert(links_from(s@, i as int) =~= Seq::<Seq<char>>::empty());
    out
}

/// The wikilink names of `notes`: the text of every `[[...]]`, trimmed,
/// blank ones left out, in order of appearance.
pub fn extract_wikilinks(notes: &str) -> (r: Vec<String>)
    ensures
        string_views(r@) == trimmed_nonblank(links_from(notes@, 0)),
{
    let s = chars_of(notes);
    let raw = raw_links(&s);
    let ghost rv = char_views(raw@);
    let mut out: Vec<String> = Vec::new();
    let mut i: usize = 0;
    while i < raw.len()
        invariant
            i <= raw@.len(),
            rv == char_views(raw@),
            string_views(out@) == trimmed_nonblank(rv.take(i as int)),
        decreases raw@.len() - i,
    {
        assert(rv.take(i + 1).drop_last() =~= rv.take(i as int));
        let t = trim_chars(&raw[i]);
        if t.len() > 0 {
            let ghost prev = out@;
            let st = string_of(&t);
            out.push(st);
            assert(string_views(out@) =~= prev.map_values(|x: String| x@).push(st@));
        }
        i += 1;
    }
    assert(rv.take(i as int) =~= rv);
    out
}

/// True when some wikilink of `notes`, trimmed and lowercased, is `target`.
pub open spec fn mentions_spec(notes: Seq<char>, target: Seq<char>) -> bool {
    exists|k: int| 0 <= k < links_from(notes, 0).len() && lowercase(trim(#[trigger] links_from(notes, 0)[k])) == target
}

/// True when the notes link to an entity of the given name, compared
/// trimmed and without regard to case.
pub fn notes_mention(notes: &str, name: &str) -> (r: bool)
    ensures
        r == mentions_spec(notes@, lowercase(trim(name@))),
{
    let nc = chars_of(name);
    let nt = trim_chars(&nc);
    let ns = string_of(&nt);
    let target = to_lowercase(ns.as_str());
    let tc = chars_of(target.as_str());
    let s = chars_of(notes);
    let raw = raw_links(&s);
    let ghost rv = char_views(raw@);
    let mut i: usize = 0;
    while i < raw.len()
        invariant
            i <= raw@.len(),
            rv == char_views(raw@),
            rv == links_from(notes@, 0),
            tc@ == lowercase(trim(name@)),
            forall|k: int| 0 <= k < i ==> lowercase(trim(#[trigger] rv[k])) != tc@,
        decreases raw@.len() - i,
    {
        let t = trim_chars(&raw[i]);
        let ts = string_of(&t);
        let l = to_lowercase(ts.as_str());
        let lc = chars_of(l.as_str());
        assert(rv[i as int] == raw@[i as int]@);
        if chars_eq(&lc, &tc) {
            return true;
        }
        i += 1;
    }
    false
}

// ── Resolving wikilinks ────────────────────────────────────────────────────

/// An entity that a wikilink may name.
#[derive(Debug, Clone)]
pub struct NamedRecord {
    pub record_id: String,
    pub name: String,
}

/// The record id of the first entity whose lowercased name is `lower`.
pub open spec fn first_match(entities: Seq<NamedRecord>, lower: Seq<char>) -> Option<Seq<char>>
    decreases entities.len(),
{
    if entities.len() == 0 {
        None
    } else {
        match first_match(entities.drop_last(), lower) {
            Some(id) => Some(id),
            None => if lowercase(entities.last().name@) == lower {
                Some(entities.last().record_id@)
            } else {
                None
            },
        }
    }
}

/// The ids the names resolve to, in the order of the names; unresolved
/// names give nothing.
pub open spec fn resolved(names: Seq<Seq<char>>, entities: Seq<NamedRecord>) -> Seq<Seq<char>>
    decreases names.len(),
{
    if names.len() == 0 {
        Seq::empty()
    } else {
        let prev = resolved(names.drop_last(), entities);
        match first_match(entities, lowercase(names.last())) {
            Some(id) => prev.push(id),
            None => prev,
        }
    }
}

/// `a` comes strictly before `b`.
pub open spec fn lex_lt(a: Seq<char>, b: Seq<char>) -> bool {
    lex_le(a, b) && a != b
}

/// `s` is strictly increasing.
pub open spec fn strictly_sorted(s: Seq<Seq<char>>) -> bool {
    forall|i: int, j: int| 0 <= i < j < s.len() ==> lex_lt(#[trigger] s[i], #[trigger] s[j])
}

fn find_first_match(entities: &[NamedRecord], lower: &Vec<char>) -> (r: Option<String>)
    ensures
        match r {
            Some(id) => first_match(entities@, lower@) == Some(id@),
            None => first_match(entities@, lower@) is None,
        },
{
    let mut i: usize = 0;
    while i < entities.len()
        invariant
            i <= entities@.len(),
            first_match(entities@.take(i as int), lower@) is None,
        decreases entities@.len() - i,
    {
        assert(entities@.take(i + 1).drop_last() =~= entities@.take(i as int));
        let l = to_lowercase(entities[i].name.as_str());
        let lc = chars_of(l.as_str());
        if chars_eq(&lc, lower) {
            proof {
                lemma_first_match_prefix(entities@, lower@, (i + 1) as nat);
            }
            return Some(entities[i].record_id.clone());
        }
        i += 1;
    }
    assert(entities@.take(i as int) =~= entities@);
    None
}

proof fn lemma_first_match_prefix(e: Seq<NamedRecord>, lower: Seq<char>, n: nat)
    requires
        n <= e.len(),
        first_match(e.take(n as int), lower) is Some,
    ensures
        first_match(e, lower) == first_match(e.take(n as int), lower),
    decreases e.len() - n,
{
    if n < e.len() {
        assert(e.take((n + 1) as int).drop_last() =~= e.take(n as int));
        lemma_first_match_prefix(e, lower, n + 1);
    } else {
        assert(e.take(n as int) =~= e);
    }
}

/// Inserts `x` into the strictly increasing `out`, unless already there.
fn insert_sorted_unique(out: &mut Vec<Vec<char>>, x: Vec<char>)
    requires
        strictly_sorted(char_views(old(out)@)),
    ensures
        strictly_sorted(char_views(final(out)@)),
        forall|y: Seq<char>| #[trigger] char_views(final(out)@).contains(y) <==> (char_views(old(out)@).contains(y) || y == x@),
{
    let ghost ov = char_views(out@);
    let mut p: usize = 0;
    while p < out.len() && !lex_le_chars(&x, &out[p])
        invariant
            p <= out@.len(),
            ov == char_views(out@),
            forall|k: int| 0 <= k < p ==> !lex_le(x@, #[trigger] ov[k]),
        decreases out@.len() - p,
    {
        p += 1;
    }
    if p < out.len() && chars_eq(&out[p], &x) {
        assert forall|y: Seq<char>| ov.contains(y) <==> (ov.contains(y) || y == x@) by {
            if y == x@ {
                assert(ov[p as int] == y);
            }
        }
        return;
    }
    let ghost xv = x@;
    out.insert(p, x);
    proof {
        let nv = char_views(out@);
        assert(nv =~= ov.take(p as int) + seq![xv] + ov.skip(p as int));
        // everything before p is below x, everything from p on above it
        assert forall|k: int| 0 <= k < p implies lex_lt(#[trigger] ov[k], xv) by {
            lemma_lex_total(xv, ov[k]);
        }
        assert forall|k: int| p <= k < ov.len() implies lex_lt(xv, #[trigger] ov[k]) by {
            if k > p {
                assert(lex_lt(ov[p as int], ov[k]));
                assert(lex_le(xv, ov[p as int]));
                lemma_lex_trans(xv, ov[p as int], ov[k]);
                if xv == ov[k] {
                    lemma_lex_antisym(ov[p as int], ov[k]);
                }
            } else {
                assert(lex_le(xv, ov[p as int]));
            }
        }
        assert forall|i: int, j: int| 0 <= i < j < nv.len() implies lex_lt(#[trigger] nv[i], #[trigger] nv[j]) by {
            if j < p {
                assert(nv[i] == ov[i] && nv[j] == ov[j]);
            } else if j == p {
                assert(nv[i] == ov[i]);
            } else if i < p {
                assert(nv[i] == ov[i] && nv[j] == ov[j - 1]);
                assert(lex_lt(ov[i], xv));
                assert(lex_lt(xv, ov[j - 1]));
                lemma_lex_trans(ov[i], xv, ov[j - 1]);
                if ov[i] == ov[j - 1] {
                    lemma_lex_antisym(ov[i], xv);
                }
            } else if i == p {
                assert(nv[j] == ov[j - 1]);
            } else {
                assert(nv[i] == ov[i - 1] && nv[j] == ov[j - 1]);
            }
        }
        assert forall|y: Seq<char>| nv.contains(y) <==> (ov.contains(y) || y == xv) by {
            if nv.contains(y) {
                let k = choose|k: int| 0 <= k < nv.len() && nv[k] == y;
                if k < p {
                    assert(ov[k] == y);
                } else if k > p {
                    assert(ov[k - 1] == y);
                }
            }
            if ov.contains(y) {
                let k = choose|k: int| 0 <= k < ov.len() && ov[k] == y;
                if k < p {
                    assert(nv[k] == y);
                } else {
                    assert(nv[k + 1] == y);
                }
            }
            if y == xv {
                assert(nv[p as int] == y);
            }
        }
    }
}

/// The record ids that the wikilink names resolve to: each name matches the
/// first entity whose name is equal ignoring case; the ids come sorted and
/// without repeats.
pub fn resolve_wikilinks(names: &[String], entities: &[NamedRecord]) -> (r: Vec<String>)
    ensures
        strictly_sorted(string_views(r@)),
        forall|y: Seq<char>| #[trigger] string_views(r@).contains(y) <==> resolved(string_views(names@), entities@).contains(y),
{
    let ghost nv = string_views(names@);
    let mut out: Vec<Vec<char>> = Vec::new();
    let mut i: usize = 0;
    while i < names.len()
        invariant
            i <= names@.len(),
            nv == string_views(names@),
            strictly_sorted(char_views(out@)),
            forall|y: Seq<char>| #[trigger] char_views(out@).contains(y) <==> resolved(nv.take(i as int), entities@).contains(y),
        decreases names@.len() - i,
    {
        let l = to_lowercase(names[i].as_str());
        let lc = chars_of(l.as_str());
        assert(nv.take(i + 1).drop_last() =~= nv.take(i as int));
        assert(nv.take(i + 1).last() == names@[i as int]@);
        let ghost before = resolved(nv.take(i as int), entities@);
        match find_first_match(entities, &lc) {
            Some(id) => {
                let idc = chars_of(id.as_str());
                insert_sorted_unique(&mut out, idc);
                proof {
                    let after = resolved(nv.take(i + 1), entities@);
                    assert(after == before.push(id@));
                    assert forall|y: Seq<char>| after.contains(y) <==> (before.contains(y) || y == id@) by {
                        if after.contains(y) {
                            let k = choose|k: int| 0 <= k < after.len() && after[k] == y;
                            if k < before.len() {
                                assert(before[k] == y);
                            }
                        }
                        if before.contains(y) {
                            let k = choose|k: int| 0 <= k < before.len() && before[k] == y;
                            assert(after[k] == y);
                        }
                        if y == id@ {
                            assert(after[before.len() as int] == y);
                        }
                    }
                }
            },
            None => {},
        }
        i += 1;
    }
    assert(nv.take(i as int) =~= nv);
    let mut r: Vec<String> = Vec::new();
    let mut k: usize = 0;
    while k < out.len()
        invariant
            k <= out@.len(),
            string_views(r@) == char_views(out@).take(k as int),
        decreases out@.len() - k,
    {
        let s = string_of(&out[k]);
        let ghost prev = r@;
        r.push(s);
        assert(string_views(r@) =~= string_views(prev).push(s@));
        assert(char_views(out@).take(k + 1) =~= char_views(out@).take(k as int).push(out@[k as int]@));
        k += 1;
    }
    assert(char_views(out@).take(k as int) =~= char_views(out@));
    r
}

// ── Statements for the mentioned edges ─────────────────────────────────────

/// `DELETE` of the `mentioned` edge from one record to another.
/// The test that keeps a text not among `b`.
pub open spec fn not_in(b: Seq<Seq<char>>) -> spec_fn(Seq<char>) -> bool {
    |x: Seq<char>| !b.contains(x)
}

fn contains_string(b: &[String], x: &str) -> (r: bool)
    ensures
        r == string_views(b@).contains(x@),
{
    let mut i: usize = 0;
    while i < b.len()
        invariant
            i <= b@.len(),
            forall|k: int| 0 <= k < i ==> b@[k]@ != x@,
        decreases b@.len() - i,
    {
        if crate::text::str_eq(b[i].as_str(), x) {
            assert(string_views(b@)[i as int] == x@);
            return true;
        }
        i += 1;
    }
    proof {
        if string_views(b@).contains(x@) {
            let k = choose|k: int| 0 <= k < string_views(b@).len() && string_views(b@)[k] == x@;
            assert(b@[k]@ == x@);
        }
    }
    false
}

fn strings_minus(a: &[String], b: &[String]) -> (r: Vec<String>)
    ensures
        string_views(r@) == string_views(a@).filter(not_in(string_views(b@))),
{
    let ghost av = string_views(a@);
    let ghost bv = string_views(b@);
    let mut out: Vec<String> = Vec::new();
    let mut i: usize = 0;
    while i < a.len()
        invariant
            i <= a@.len(),
            av == string_views(a@),
            bv == string_views(b@),
            string_views(out@) == av.take(i as int).filter(not_in(bv)),
        decreases a@.len() - i,
    {
        proof {
            reveal(Seq::filter);
            assert(av.take(i + 1).drop_last() =~= av.take(i as int));
            assert(av.take(i + 1).last() == a@[i as int]@);
        }
        if !contains_string(b, a[i].as_str()) {
            let ghost prev = out@;
            out.push(a[i].clone());
            assert(string_views(out@) =~= string_views(prev).push(a@[i as int]@));
        }
        i += 1;
    }
    assert(av.take(i as int) =~= av);
    out
}

/// The `mentioned` edges to change so that the targets of a source become
/// exactly the resolved ones: first the existing targets to delete (those
/// no longer resolved), then the resolved targets to create (those not yet
/// there), each in the order given.
pub fn mention_edge_plan(existing: &[String], resolved: &[String]) -> (r: (Vec<String>, Vec<String>))
    ensures
        string_views(r.0@) == string_views(existing@).filter(not_in(string_views(resolved@))),
        string_views(r.1@) == string_views(resolved@).filter(not_in(string_views(existing@))),
{
    (strings_minus(existing, resolved), strings_minus(resolved, existing))
}

/// Carrying out the plan leaves exactly the resolved targets: an entity is
/// a target afterwards (an existing one not deleted, or a created one) if
/// and only if it was resolved.
pub proof fn lemma_mention_plan_reaches_resolved(existing: Seq<Seq<char>>, resolved: Seq<Seq<char>>, x: Seq<char>)
    ensures
        ((existing.contains(x) && !existing.filter(not_in(resolved)).contains(x)) || resolved.filter(
            not_in(existing),
        ).contains(x)) <==> resolved.contains(x),
{
    broadcast use vstd::seq_lib::group_filter_ensures;
    if existing.filter(not_in(resolved)).contains(x) {
        let k = choose|k: int| 0 <= k < existing.filter(not_in(resolved)).len() && existing.filter(not_in(resolved))[k] == x;
        assert(not_in(resolved)(existing.filter(not_in(resolved))[k]));
    }
    if resolved.filter(not_in(existing)).contains(x) {
        resolved.lemma_filter_contains_rev(not_in(existing), x);
        let k = choose|k: int| 0 <= k < resolved.filter(not_in(existing)).len() && resolved.filter(not_in(existing))[k] == x;
        assert(not_in(existing)(resolved.filter(not_in(existing))[k]));
    }
    if resolved.contains(x) {
        let k = choose|k: int| 0 <= k < resolved.len() && resolved[k] == x;
        if !existing.contains(x) {
            resolved.lemma_filter_contains(not_in(existing), k);
        }
    }
}

pub fn delete_mentioned_sql(from_table: &str, from_id: &str, to_table: &str, to_id: &str) -> (r: String)
    ensures
        r@ == "DELETE relates_to WHERE in = "@ + from_table@ + seq![':'] + from_id@ + " AND out = "@ + to_table@
            + seq![':'] + to_id@ + " AND rel_type = 'mentioned'"@,
{
    let mut out: Vec<char> = Vec::new();
    extend_str(&mut out, "DELETE relates_to WHERE in = ");
    extend_str(&mut out, from_table);
    out.push(':');
    extend_str(&mut out, from_id);
    extend_str(&mut out, " AND out = ");
    extend_str(&mut out, to_table);
    out.push(':');
    extend_str(&mut out, to_id);
    extend_str(&mut out, " AND rel_type = 'mentioned'");
    string_of(&out)
}

/// `RELATE` creating a `mentioned` edge from one record to another.
pub fn relate_mentioned_sql(from_table: &str, from_id: &str, to_table: &str, to_id: &str) -> (r: String)
    ensures
        r@ == "RELATE "@ + from_table@ + seq![':'] + from_id@ + "->relates_to->"@ + to_table@ + seq![':'] + to_id@
            + " SET rel_type = 'mentioned', notes = NULL, created_at = time::now()"@,
{
    let mut out: Vec<char> = Vec::new();
    extend_str(&mut out, "RELATE ");
    extend_str(&mut out, from_table);
    out.push(':');
    extend_str(&mut out, from_id);
    extend_str(&mut out, "->relates_to->");
    extend_str(&mut out, to_table);
    out.push(':');
    extend_str(&mut out, to_id);
    extend_str(&mut out, " SET rel_type = 'mentioned', notes = NULL, created_at = time::now()");
    string_of(&out)
}

/// The query for any edge other than `mentioned` between two records, in
/// either direction.
pub fn higher_tier_edge_sql(a_table: &str, a_id: &str, b_table: &str, b_id: &str) -> (r: String)
    ensures
        r@ == "SELECT VALUE id FROM relates_to WHERE ("@ + crate::relations::pair_filter_spec(a_table@, a_id@, b_table@, b_id@)
            + ") AND rel_type != 'mentioned' LIMIT 1"@,
{
    let f = crate::relations::pair_filter(a_table, a_id, b_table, b_id);
    let mut out: Vec<char> = Vec::new();
    extend_str(&mut out, "SELECT VALUE id FROM relates_to WHERE (");
    extend_str(&mut out, f.as_str());
    extend_str(&mut out, ") AND rel_type != 'mentioned' LIMIT 1");
    string_of(&out)
}

} // verus!
