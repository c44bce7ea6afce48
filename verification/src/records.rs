//! The plain records of the application (campaigns, collections, sessions,
//! settings), the validation of what a user enters, and new record ids.
use vstd::prelude::*;
use crate::entity::{EntityError, EntityInput};
use crate::text::{chars_of, extend_str, is_blank, string_of, trim};

verus! {

// ── Record ids ─────────────────────────────────────────────────────────────

/// A lowercase hexadecimal digit.
pub open spec fn is_lower_hex(c: char) -> bool {
    ('0' <= c && c <= '9') || ('a' <= c && c <= 'f')
}

/// A version-4 UUID in its hyphenated form: 36 characters, hyphens at 8,
/// 13, 18 and 23, lowercase hexadecimal digits elsewhere, the version digit
/// (index 14) `4` and the variant digit (index 19) one of `8`, `9`, `a`,
/// `b`.
pub open spec fn hyphenated_uuid(s: Seq<char>) -> bool {
    &&& s.len() == 36
    &&& forall|k: int| 0 <= k < 36 ==> if k == 8 || k == 13 || k == 18 || k == 23 {
        s[k] == '-'
    } else {
        is_lower_hex(#[trigger] s[k])
    }
    &&& s[14] == '4'
    &&& (s[19] == '8' || s[19] == '9' || s[19] == 'a' || s[19] == 'b')
}

/// `uuid::Uuid::new_v4` written with `Display`. Claims only the shape of
/// the text (hyphenated, lowercase hexadecimal, with the version and variant
/// digits that `new_v4` sets); the value is random, so nothing ties two
/// calls together.
#[verifier::external_body]
fn random_uuid_text() -> (r: String)
    ensures
        hyphenated_uuid(r@),
{
    uuid::Uuid::new_v4().to_string()
}

/// The test that keeps a character: it is not a hyphen.
pub open spec fn not_hyphen() -> spec_fn(char) -> bool {
    |c: char| c != '-'
}

/// `s` with its hyphens removed.
pub open spec fn strip_hyphens(s: Seq<char>) -> Seq<char> {
    s.filter(not_hyphen())
}

/// Removes the hyphens of a UUID text, keeping every other character in
/// order.
pub fn strip_uuid_hyphens(u: &str) -> (r: String)
    ensures
        r@ == u@.filter(|c: char| c != '-'),
        r@ == strip_hyphens(u@),
{
    let cs = chars_of(u);
    let mut out: Vec<char> = Vec::new();
    let mut i: usize = 0;
    while i < cs.len()
        invariant
            i <= cs@.len(),
            cs@ == u@,
            out@ == strip_hyphens(cs@.take(i as int)),
        decreases cs@.len() - i,
    {
        let c = cs[i];
        proof {
            reveal(Seq::filter);
            assert(cs@.take(i + 1).drop_last() =~= cs@.take(i as int));
            assert(cs@.take(i + 1).last() == c);
        }
        if c != '-' {
            out.push(c);
        }
        i += 1;
    }
    assert(cs@.take(i as int) =~= cs@);
    string_of(&out)
}

proof fn lemma_strip_no_hyphen(s: Seq<char>)
    requires
        forall|k: int| 0 <= k < s.len() ==> s[k] != '-',
    ensures
        strip_hyphens(s) == s,
    decreases s.len(),
{
    reveal(Seq::filter);
    if s.len() > 0 {
        lemma_strip_no_hyphen(s.drop_last());
    }
}

proof fn lemma_strip_hyphen()
    ensures
        strip_hyphens(seq!['-']) == Seq::<char>::empty(),
{
    reveal_with_fuel(Seq::filter, 2);
    assert(seq!['-'].drop_last() =~= Seq::<char>::empty());
}

/// The hex digits of a hyphenated UUID, in order: its five groups joined.
proof fn lemma_strip_uuid(u: Seq<char>)
    requires
        hyphenated_uuid(u),
    ensures
        strip_hyphens(u) == u.take(8) + u.subrange(9, 13) + u.subrange(14, 18) + u.subrange(19, 23) + u.subrange(24, 36),
{
    let h = seq!['-'];
    let g0 = u.take(8);
    let g1 = u.subrange(9, 13);
    let g2 = u.subrange(14, 18);
    let g3 = u.subrange(19, 23);
    let g4 = u.subrange(24, 36);
    assert(u =~= g0 + h + g1 + h + g2 + h + g3 + h + g4);
    assert forall|k: int| 0 <= k < g0.len() implies g0[k] != '-' by { assert(is_lower_hex(u[k])); }
    assert forall|k: int| 0 <= k < g1.len() implies g1[k] != '-' by { assert(is_lower_hex(u[k + 9])); }
    assert forall|k: int| 0 <= k < g2.len() implies g2[k] != '-' by { assert(is_lower_hex(u[k + 14])); }
    assert forall|k: int| 0 <= k < g3.len() implies g3[k] != '-' by { assert(is_lower_hex(u[k + 19])); }
    assert forall|k: int| 0 <= k < g4.len() implies g4[k] != '-' by { assert(is_lower_hex(u[k + 24])); }
    lemma_strip_no_hyphen(g0);
    lemma_strip_no_hyphen(g1);
    lemma_strip_no_hyphen(g2);
    lemma_strip_no_hyphen(g3);
    lemma_strip_no_hyphen(g4);
    lemma_strip_hyphen();
    let p = not_hyphen();
    Seq::filter_distributes_over_add(g0, h, p);
    Seq::filter_distributes_over_add(g0 + h, g1, p);
    Seq::filter_distributes_over_add(g0 + h + g1, h, p);
    Seq::filter_distributes_over_add(g0 + h + g1 + h, g2, p);
    Seq::filter_distributes_over_add(g0 + h + g1 + h + g2, h, p);
    Seq::filter_distributes_over_add(g0 + h + g1 + h + g2 + h, g3, p);
    Seq::filter_distributes_over_add(g0 + h + g1 + h + g2 + h + g3, h, p);
    Seq::filter_distributes_over_add(g0 + h + g1 + h + g2 + h + g3 + h, g4, p);
    assert(g0 + Seq::<char>::empty() =~= g0);
    assert(g0 + g1 + Seq::<char>::empty() =~= g0 + g1);
    assert(g0 + g1 + g2 + Seq::<char>::empty() =~= g0 + g1 + g2);
    assert(g0 + g1 + g2 + g3 + Seq::<char>::empty() =~= g0 + g1 + g2 + g3);
}

/// A fresh record id: a random version-4 UUID with its hyphens removed,
/// 32 lowercase hexadecimal digits with the version digit `4` at index 12
/// and the variant digit (`8`, `9`, `a` or `b`) at index 16.
pub fn new_record_id() -> (r: String)
    ensures
        exists|u: Seq<char>| hyphenated_uuid(u) && r@ == strip_hyphens(u),
        r@.len() == 32,
        forall|k: int| 0 <= k < 32 ==> is_lower_hex(#[trigger] r@[k]),
        r@[12] == '4',
        r@[16] == '8' || r@[16] == '9' || r@[16] == 'a' || r@[16] == 'b',
{
    let u = random_uuid_text();
    let r = strip_uuid_hyphens(u.as_str());
    proof {
        lemma_strip_uuid(u@);
        let v = u@;
        assert forall|k: int| 0 <= k < 32 implies is_lower_hex(#[trigger] r@[k]) by {
            if k < 8 {
                assert(r@[k] == v[k]);
            } else if k < 12 {
                assert(r@[k] == v[k + 1]);
            } else if k < 16 {
                assert(r@[k] == v[k + 2]);
            } else if k < 20 {
                assert(r@[k] == v[k + 3]);
            } else {
                assert(r@[k] == v[k + 4]);
            }
        }
        assert(r@[12] == v[14]);
        assert(r@[16] == v[19]);
    }
    r
}

// ── Campaigns and collections ──────────────────────────────────────────────

/// A campaign.
#[derive(Debug, Clone)]
pub struct Campaign {
    pub id: String,
    pub name: String,
    pub system: String,
}

/// A collection of source books.
#[derive(Debug, Clone)]
pub struct Collection {
    pub id: String,
    pub name: String,
    pub description: Option<String>,
}

/// Refusal of a collection delete while campaigns subscribe to it.
pub const SUBSCRIBED_REFUSAL: &'static str = "Cannot delete: campaigns are subscribed to this collection. Remove subscriptions first.";

/// Refusal of a collection delete while sources belong to it.
pub const SOURCES_REFUSAL: &'static str = "Cannot delete: sources exist in this collection. Delete sources first.";

/// Whether a collection may be deleted, given how many campaigns subscribe
/// to it and how many sources it holds: subscriptions refuse it first, then
/// sources; `None` lets the delete go ahead.
pub fn delete_refusal(subscriptions: u64, sources: u64) -> (r: Option<String>)
    ensures
        subscriptions > 0 ==> (r matches Some(m) && m@ == SUBSCRIBED_REFUSAL@),
        subscriptions == 0 && sources > 0 ==> (r matches Some(m) && m@ == SOURCES_REFUSAL@),
        subscriptions == 0 && sources == 0 ==> r is None,
{
    if subscriptions > 0 {
        Some(SUBSCRIBED_REFUSAL.to_owned())
    } else if sources > 0 {
        Some(SOURCES_REFUSAL.to_owned())
    } else {
        None
    }
}

// ── Sessions ───────────────────────────────────────────────────────────────

/// Failures of the session operations.
#[derive(Debug)]
pub enum SessionError {
    NotFound { id: String },
    Validation { field: String, message: String },
    Database { message: String },
}

/// A play session of a campaign.
#[derive(Debug, Clone)]
pub struct Session {
    pub id: String,
    pub campaign_id: Option<String>,
    pub session_number: i64,
    pub title: String,
    pub date_played: String,
    pub notes: String,
    pub is_gm_only: bool,
    pub created_at: Option<String>,
    pub updated_at: Option<String>,
}

/// What a user enters for a session.
#[derive(Debug, Clone, Default)]
pub struct SessionInput {
    pub session_number: i64,
    pub title: String,
    pub date_played: String,
    pub notes: String,
    pub is_gm_only: Option<bool>,
}

/// Whether a session is being created or changed; the two word the
/// session-number message differently.
#[derive(Debug, Clone, Copy, PartialEq, Eq, Structural)]
pub enum SessionChange {
    Create,
    Update,
}

/// Checks a session input: a blank title is refused first, then a session
/// number below one.
pub fn validate_session_input(input: &SessionInput, change: SessionChange) -> (r: Result<(), SessionError>)
    ensures
        trim(input.title@).len() == 0 ==> (r matches Err(SessionError::Validation { field, message }) && field@
            == "title"@ && message@ == "Title is required"@),
        trim(input.title@).len() > 0 && input.session_number <= 0 ==> (r matches Err(
            SessionError::Validation { field, message },
        ) && field@ == "session_number"@ && message@ == (if change == SessionChange::Create {
            "Session number must be greater than 0"@
        } else {
            "Session number must be positive"@
        })),
        trim(input.title@).len() > 0 && input.session_number > 0 ==> r is Ok,
{
    let tc = chars_of(input.title.as_str());
    if is_blank(&tc) {
        return Err(SessionError::Validation { field: "title".to_owned(), message: "Title is required".to_owned() });
    }
    if input.session_number <= 0 {
        let message = match change {
            SessionChange::Create => "Session number must be greater than 0".to_owned(),
            SessionChange::Update => "Session number must be positive".to_owned(),
        };
        return Err(SessionError::Validation { field: "session_number".to_owned(), message });
    }
    Ok(())
}

/// Checks an entity input: a blank name is refused.
pub fn validate_entity_input(input: &EntityInput) -> (r: Result<(), EntityError>)
    ensures
        trim(input.name@).len() == 0 ==> (r matches Err(EntityError::Validation { field, message }) && field@ == "name"@
            && message@ == "Name is required"@),
        trim(input.name@).len() > 0 ==> r is Ok,
{
    let nc = chars_of(input.name.as_str());
    if is_blank(&nc) {
        return Err(EntityError::Validation { field: "name".to_owned(), message: "Name is required".to_owned() });
    }
    Ok(())
}

// ── Settings ───────────────────────────────────────────────────────────────

/// A setting: a key and its value.
#[derive(Debug, Clone)]
pub struct Setting {
    pub key: String,
    pub value: String,
}

/// `s` with every backtick doubled, as a SurrealQL quoted identifier needs.
pub open spec fn double_backticks(s: Seq<char>) -> Seq<char>
    decreases s.len(),
{
    if s.len() == 0 {
        Seq::empty()
    } else {
        double_backticks(s.drop_last()) + if s.last() == '`' {
            seq!['`', '`']
        } else {
            seq![s.last()]
        }
    }
}

/// The statement that sets the setting `key` to the bound `$value`.
pub fn setting_upsert_sql(key: &str) -> (r: String)
    ensures
        r@ == "UPSERT setting:`"@ + double_backticks(key@) + "` SET value = $value"@,
{
    let kc = chars_of(key);
    let mut out: Vec<char> = Vec::new();
    extend_str(&mut out, "UPSERT setting:`");
    let ghost a = out@;
    let mut i: usize = 0;
    while i < kc.len()
        invariant
            i <= kc@.len(),
            kc@ == key@,
            out@ == a + double_backticks(kc@.take(i as int)),
        decreases kc@.len() - i,
    {
        if kc[i] == '`' {
            out.push('`');
            out.push('`');
        } else {
            out.push(kc[i]);
        }
        proof {
            assert(kc@.take(i + 1).drop_last() =~= kc@.take(i as int));
        }
        i += 1;
        assert(out@ =~= a + double_backticks(kc@.take(i as int)));
    }
    assert(kc@.take(i as int) =~= key@);
    extend_str(&mut out, "` SET value = $value");
    string_of(&out)
}

/// The text embedded for a session: the trimmed title, then a newline and
/// the trimmed notes when they are not blank.
pub fn session_embed_text(session: &Session) -> (r: String)
    ensures
        r@ == trim(session.title@) + (if trim(session.notes@).len() > 0 {
            seq!['\n'] + trim(session.notes@)
        } else {
            Seq::empty()
        }),
{
    let tc = chars_of(session.title.as_str());
    let mut out = crate::text::trim_chars(&tc);
    let nc = chars_of(session.notes.as_str());
    let nt = crate::text::trim_chars(&nc);
    let ghost a = out@;
    if nt.len() > 0 {
        out.push('\n');
        crate::text::extend_chars(&mut out, &nt);
        assert(out@ =~= a + (seq!['\n'] + nt@));
    } else {
        assert(out@ =~= a + Seq::<char>::empty());
    }
    string_of(&out)
}

} // verus!
