//! Relationship edges between entities: record-id safety, the specificity
//! tiers of relationship types, the collapsing of parallel relationships,
//! and the decisions behind the graph and relation-list queries.
use vstd::prelude::*;
use crate::entity::EntityError;
use crate::order::{lex_le, lex_le_chars, TotalPreorder, lemma_lex_total, lemma_lex_trans};
use crate::text::{chars_of, extend_str, str_eq, string_of};
use crate::unicode::{alphanumeric, is_alphanumeric};

verus! {

// ── Record ids ─────────────────────────────────────────────────────────────

/// A record-id fragment that is safe to place in a query: not empty, and
/// only alphanumeric characters, `_` and `-`.
pub open spec fn safe_record_id(s: Seq<char>) -> bool {
    s.len() > 0 && forall|k: int| 0 <= k < s.len() ==> (alphanumeric(#[trigger] s[k]) || s[k] == '_' || s[k] == '-')
}

/// True when `id` is a safe record-id fragment.
pub fn is_safe_record_id(id: &str) -> (r: bool)
    ensures
        r == safe_record_id(id@),
{
    let cs = chars_of(id);
    if cs.len() == 0 {
        return false;
    }
    let mut i: usize = 0;
    while i < cs.len()
        invariant
            i <= cs@.len(),
            cs@ == id@,
            forall|k: int| 0 <= k < i ==> (alphanumeric(#[trigger] cs@[k]) || cs@[k] == '_' || cs@[k] == '-'),
        decreases cs@.len() - i,
    {
        let c = cs[i];
        if !(is_alphanumeric(c) || c == '_' || c == '-') {
            return false;
        }
        i += 1;
    }
    true
}

/// `e` is the validation error for an unsafe id given as `field`.
pub open spec fn invalid_id_error(e: EntityError, field: Seq<char>) -> bool {
    e matches EntityError::Validation { field: f, message: m } && f@ == field && m@ == "Invalid entity id"@
}

/// Checks an id given as `field` before it enters a query: `Ok` exactly when
/// it is a safe record id, else the validation error naming `field`.
pub fn check_record_id(field: &str, id: &str) -> (r: Result<(), EntityError>)
    ensures
        r is Ok <==> safe_record_id(id@),
        r matches Err(e) ==> invalid_id_error(e, field@),
{
    if is_safe_record_id(id) {
        Ok(())
    } else {
        Err(EntityError::Validation { field: field.to_owned(), message: "Invalid entity id".to_owned() })
    }
}

// ── Specificity tiers ──────────────────────────────────────────────────────

/// Tier of a relationship type: `mentioned` 0, the catch-alls `related_to`
/// and `knows` 1, every other (specific) type 2.
pub open spec fn rel_tier(rel: Seq<char>) -> u8 {
    if rel == "mentioned"@ {
        0
    } else if rel == "related_to"@ || rel == "knows"@ {
        1
    } else {
        2
    }
}

/// The specificity tier of a relationship type.
pub fn rel_specificity(rel_type: &str) -> (r: u8)
    ensures
        r == rel_tier(rel_type@),
{
    if str_eq(rel_type, "mentioned") {
        0
    } else if str_eq(rel_type, "related_to") || str_eq(rel_type, "knows") {
        1
    } else {
        2
    }
}

// ── Collapsing parallel relationships ──────────────────────────────────────

/// Something that relates two entities: it belongs to a group (the pair or
/// endpoint it connects), has an identity (what makes two of them the same
/// relationship) and a relationship type.
pub trait Relationship: Sized {
    spec fn group_of(&self) -> Seq<Seq<char>>;

    spec fn identity_of(&self) -> Seq<Seq<char>>;

    spec fn rel_of(&self) -> Seq<char>;

    fn same_group(&self, other: &Self) -> (r: bool)
        ensures
            r == (self.group_of() == other.group_of()),
    ;

    fn same_identity(&self, other: &Self) -> (r: bool)
        ensures
            r == (self.identity_of() == other.identity_of()),
    ;

    fn tier(&self) -> (r: u8)
        ensures
            r == rel_tier(self.rel_of()),
    ;
}

/// The highest tier among the items of group `g` (0 when there is none).
pub open spec fn top_tier<T: Relationship>(items: Seq<T>, g: Seq<Seq<char>>) -> u8
    decreases items.len(),
{
    if items.len() == 0 {
        0
    } else {
        let m = top_tier(items.drop_last(), g);
        let it = items.last();
        if it.group_of() == g && rel_tier(it.rel_of()) > m {
            rel_tier(it.rel_of())
        } else {
            m
        }
    }
}

/// `x` is at the highest tier of its group in `items`.
pub open spec fn at_top<T: Relationship>(items: Seq<T>, x: T) -> bool {
    rel_tier(x.rel_of()) == top_tier(items, x.group_of())
}

/// Some item of `k` has identity `id`.
pub open spec fn has_identity<T: Relationship>(k: Seq<T>, id: Seq<Seq<char>>) -> bool {
    exists|m: int| 0 <= m < k.len() && (#[trigger] k[m]).identity_of() == id
}

/// What survives of the first `n` items: those at the top tier of their
/// group in all of `items`, each identity kept once (its first occurrence).
pub open spec fn kept_prefix<T: Relationship>(items: Seq<T>, n: nat) -> Seq<T>
    decreases n,
{
    if n == 0 {
        Seq::empty()
    } else {
        let k = kept_prefix(items, (n - 1) as nat);
        let it = items[n - 1];
        if at_top(items, it) && !has_identity(k, it.identity_of()) {
            k.push(it)
        } else {
            k
        }
    }
}

/// What `keep_most_specific` keeps of `items`.
pub open spec fn most_specific<T: Relationship>(items: Seq<T>) -> Seq<T> {
    kept_prefix(items, items.len())
}

/// The items of `s` whose flag is set, in order.
pub open spec fn select<T>(s: Seq<T>, f: Seq<bool>) -> Seq<T>
    decreases s.len(),
{
    if s.len() == 0 || f.len() == 0 {
        Seq::empty()
    } else {
        let r = select(s.drop_last(), f.drop_last());
        if f.last() {
            r.push(s.last())
        } else {
            r
        }
    }
}

proof fn lemma_select_identity<T: Relationship>(s: Seq<T>, f: Seq<bool>, id: Seq<Seq<char>>)
    requires
        s.len() == f.len(),
    ensures
        has_identity(select(s, f), id) <==> exists|j: int| 0 <= j < s.len() && f[j] && (#[trigger] s[j]).identity_of() == id,
    decreases s.len(),
{
    if s.len() > 0 {
        let r = select(s.drop_last(), f.drop_last());
        lemma_select_identity(s.drop_last(), f.drop_last(), id);
        if has_identity(select(s, f), id) {
            let m = choose|m: int| 0 <= m < select(s, f).len() && (#[trigger] select(s, f)[m]).identity_of() == id;
            if m < r.len() {
                assert(r[m] == select(s, f)[m]);
                let j = choose|j: int| 0 <= j < s.drop_last().len() && f.drop_last()[j] && (#[trigger] s.drop_last()[j]).identity_of() == id;
                assert(s[j] == s.drop_last()[j]);
            } else {
                assert(s[s.len() - 1].identity_of() == id);
            }
        }
        if exists|j: int| 0 <= j < s.len() && f[j] && (#[trigger] s[j]).identity_of() == id {
            let j = choose|j: int| 0 <= j < s.len() && f[j] && (#[trigger] s[j]).identity_of() == id;
            if j < s.len() - 1 {
                assert(s.drop_last()[j] == s[j]);
                assert(f.drop_last()[j] == f[j]);
                let m = choose|m: int| 0 <= m < r.len() && (#[trigger] r[m]).identity_of() == id;
                assert(select(s, f)[m] == r[m]);
            } else {
                assert(select(s, f)[select(s, f).len() - 1] == s.last());
            }
        }
    }
}

proof fn lemma_top_tier<T: Relationship>(items: Seq<T>, g: Seq<Seq<char>>)
    ensures
        forall|j: int| 0 <= j < items.len() && (#[trigger] items[j]).group_of() == g ==> rel_tier(items[j].rel_of()) <= top_tier(items, g),
        (exists|j: int| 0 <= j < items.len() && (#[trigger] items[j]).group_of() == g) ==> exists|j: int|
            0 <= j < items.len() && (#[trigger] items[j]).group_of() == g && rel_tier(items[j].rel_of()) == top_tier(items, g),
    decreases items.len(),
{
    if items.len() > 0 {
        let d = items.drop_last();
        lemma_top_tier(d, g);
        assert forall|j: int| 0 <= j < items.len() && (#[trigger] items[j]).group_of() == g implies rel_tier(items[j].rel_of()) <= top_tier(items, g) by {
            if j < items.len() - 1 {
                assert(items[j] == d[j]);
            }
        }
        if exists|j: int| 0 <= j < items.len() && (#[trigger] items[j]).group_of() == g {
            let last = items.len() - 1;
            if items[last].group_of() == g && rel_tier(items[last].rel_of()) > top_tier(d, g) {
                assert(rel_tier(items[last].rel_of()) == top_tier(items, g));
            } else if exists|j: int| 0 <= j < d.len() && (#[trigger] d[j]).group_of() == g {
                let j = choose|j: int| 0 <= j < d.len() && (#[trigger] d[j]).group_of() == g && rel_tier(d[j].rel_of()) == top_tier(d, g);
                assert(items[j] == d[j]);
            } else {
                let j = choose|j: int| 0 <= j < items.len() && (#[trigger] items[j]).group_of() == g;
                if j < last {
                    assert(d[j] == items[j]);
                }
                assert(top_tier(d, g) == 0) by {
                    lemma_top_tier_absent(d, g);
                }
            }
        }
    }
}

proof fn lemma_top_tier_absent<T: Relationship>(items: Seq<T>, g: Seq<Seq<char>>)
    requires
        forall|j: int| 0 <= j < items.len() ==> (#[trigger] items[j]).group_of() != g,
    ensures
        top_tier(items, g) == 0,
    decreases items.len(),
{
    if items.len() > 0 {
        let d = items.drop_last();
        assert forall|j: int| 0 <= j < d.len() implies (#[trigger] d[j]).group_of() != g by {
            assert(d[j] == items[j]);
        }
        lemma_top_tier_absent(d, g);
    }
}

proof fn lemma_kept_prefix<T: Relationship>(items: Seq<T>, n: nat)
    requires
        n <= items.len(),
    ensures
        forall|k: int| 0 <= k < kept_prefix(items, n).len() ==> at_top(items, #[trigger] kept_prefix(items, n)[k]),
        forall|k: int| 0 <= k < kept_prefix(items, n).len() ==> exists|j: int| 0 <= j < n && items[j] == #[trigger] kept_prefix(items, n)[k],
        forall|a: int, b: int| 0 <= a < b < kept_prefix(items, n).len() ==> (#[trigger] kept_prefix(items, n)[a]).identity_of() != (#[trigger] kept_prefix(items, n)[b]).identity_of(),
    decreases n,
{
    if n > 0 {
        lemma_kept_prefix(items, (n - 1) as nat);
        let k = kept_prefix(items, (n - 1) as nat);
        let it = items[n - 1];
        if at_top(items, it) && !has_identity(k, it.identity_of()) {
            let r = k.push(it);
            assert forall|m: int| 0 <= m < r.len() implies exists|j: int| 0 <= j < n && items[j] == #[trigger] r[m] by {
                if m < k.len() {
                    assert(r[m] == k[m]);
                    let j = choose|j: int| 0 <= j < n - 1 && items[j] == #[trigger] k[m];
                } else {
                    assert(items[n - 1] == r[m]);
                }
            }
            assert forall|a: int, b: int| 0 <= a < b < r.len() implies (#[trigger] r[a]).identity_of() != (#[trigger] r[b]).identity_of() by {
                if b < k.len() {
                    assert(r[a] == k[a] && r[b] == k[b]);
                } else {
                    assert(r[a] == k[a]);
                    if k[a].identity_of() == it.identity_of() {
                        assert(has_identity(k, it.identity_of()));
                    }
                }
            }
        } else {
            assert forall|m: int| 0 <= m < k.len() implies exists|j: int| 0 <= j < n && items[j] == #[trigger] k[m] by {
                let j = choose|j: int| 0 <= j < n - 1 && items[j] == #[trigger] k[m];
            }
        }
    }
}

proof fn lemma_kept_prefix_grows<T: Relationship>(items: Seq<T>, n: nat, m: nat)
    requires
        n <= m <= items.len(),
    ensures
        kept_prefix(items, n).len() <= kept_prefix(items, m).len(),
        forall|k: int| 0 <= k < kept_prefix(items, n).len() ==> kept_prefix(items, m)[k] == #[trigger] kept_prefix(items, n)[k],
    decreases m - n,
{
    if n < m {
        lemma_kept_prefix_grows(items, n, (m - 1) as nat);
    }
}

/// Only the most specific relationships survive: every kept item is at the
/// highest tier of its group, and every kept item is one of the input items.
pub proof fn lemma_most_specific_top<T: Relationship>(items: Seq<T>)
    ensures
        forall|k: int| 0 <= k < most_specific(items).len() ==> at_top(items, #[trigger] most_specific(items)[k]),
        forall|k: int| 0 <= k < most_specific(items).len() ==> exists|j: int| 0 <= j < items.len() && items[j] == #[trigger] most_specific(items)[k],
{
    lemma_kept_prefix(items, items.len());
}

/// Duplicates are dropped: no two kept items share an identity.
pub proof fn lemma_most_specific_unique<T: Relationship>(items: Seq<T>)
    ensures
        forall|a: int, b: int| 0 <= a < b < most_specific(items).len() ==> (#[trigger] most_specific(items)[a]).identity_of() != (#[trigger] most_specific(items)[b]).identity_of(),
{
    lemma_kept_prefix(items, items.len());
}

proof fn lemma_kept_prefix_of_kept<T: Relationship>(items: Seq<T>, n: nat)
    requires
        n <= most_specific(items).len(),
    ensures
        kept_prefix(most_specific(items), n) == most_specific(items).take(n as int),
    decreases n,
{
    let s = most_specific(items);
    if n == 0 {
        assert(s.take(0) =~= Seq::<T>::empty());
    } else {
        lemma_kept_prefix_of_kept(items, (n - 1) as nat);
        lemma_most_specific_top(items);
        lemma_most_specific_unique(items);
        let it = s[n - 1];
        let g = it.group_of();
        lemma_top_tier(s, g);
        assert(s[n - 1].group_of() == g);
        let j = choose|j: int| 0 <= j < s.len() && (#[trigger] s[j]).group_of() == g && rel_tier(s[j].rel_of()) == top_tier(s, g);
        assert(at_top(items, s[j]));
        assert(at_top(items, s[n - 1]));
        assert(at_top(s, it));
        let k = s.take(n - 1);
        if has_identity(k, it.identity_of()) {
            let m = choose|m: int| 0 <= m < k.len() && (#[trigger] k[m]).identity_of() == it.identity_of();
            assert(k[m] == s[m]);
            assert(s[m].identity_of() != s[n - 1].identity_of());
        }
        assert(k.push(it) =~= s.take(n as int));
    }
}

/// Every item at the top tier of its group keeps its identity.
pub proof fn lemma_most_specific_keeps_top<T: Relationship>(items: Seq<T>, j: int)
    requires
        0 <= j < items.len(),
        at_top(items, items[j]),
    ensures
        has_identity(most_specific(items), items[j].identity_of()),
{
    let kj = kept_prefix(items, j as nat);
    let kj1 = kept_prefix(items, (j + 1) as nat);
    let ms = most_specific(items);
    lemma_kept_prefix_grows(items, (j + 1) as nat, items.len());
    lemma_kept_prefix_grows(items, j as nat, (j + 1) as nat);
    if has_identity(kj, items[j].identity_of()) {
        let m = choose|m: int| 0 <= m < kj.len() && (#[trigger] kj[m]).identity_of() == items[j].identity_of();
        assert(kj1[m] == kj[m]);
        assert(ms[m] == kj1[m]);
    } else {
        assert(kj1 == kj.push(items[j]));
        assert(ms[kj.len() as int] == kj1[kj.len() as int]);
    }
}

/// Collapsing is idempotent: keeping the most specific items of what was
/// already kept changes nothing.
pub proof fn lemma_most_specific_idempotent<T: Relationship>(items: Seq<T>)
    ensures
        most_specific(most_specific(items)) == most_specific(items),
{
    let s = most_specific(items);
    lemma_kept_prefix_of_kept(items, s.len());
    assert(s.take(s.len() as int) =~= s);
}

/// Some item of `k` belongs to group `g`.
pub open spec fn has_group<T: Relationship>(k: Seq<T>, g: Seq<Seq<char>>) -> bool {
    exists|m: int| 0 <= m < k.len() && (#[trigger] k[m]).group_of() == g
}

/// No group disappears: when equal identities imply equal groups, every
/// group of the input keeps at least one item.
pub proof fn lemma_most_specific_covers<T: Relationship>(items: Seq<T>)
    requires
        forall|a: int, b: int| 0 <= a < items.len() && 0 <= b < items.len() && (#[trigger] items[a]).identity_of() == (#[trigger] items[b]).identity_of() ==> items[a].group_of() == items[b].group_of(),
    ensures
        forall|i: int| 0 <= i < items.len() ==> has_group(most_specific(items), #[trigger] items[i].group_of()),
{
    assert forall|i: int| 0 <= i < items.len() implies has_group(most_specific(items), #[trigger] items[i].group_of()) by {
        let g = items[i].group_of();
        lemma_top_tier(items, g);
        let j = choose|j: int| 0 <= j < items.len() && (#[trigger] items[j]).group_of() == g && rel_tier(items[j].rel_of()) == top_tier(items, g);
        let kj = kept_prefix(items, j as nat);
        let kj1 = kept_prefix(items, (j + 1) as nat);
        lemma_kept_prefix(items, j as nat);
        lemma_kept_prefix_grows(items, (j + 1) as nat, items.len());
        // the item at the top of the group either entered, or one with its identity did
        let w: T = if has_identity(kj, items[j].identity_of()) {
            let m = choose|m: int| 0 <= m < kj.len() && (#[trigger] kj[m]).identity_of() == items[j].identity_of();
            let q = choose|q: int| 0 <= q < j && items[q] == #[trigger] kj[m];
            assert(kj1[m] == kj[m]);
            assert(items[q].group_of() == items[j].group_of());
            kj[m]
        } else {
            assert(kj1[kj1.len() - 1] == items[j]);
            items[j]
        };
        assert(exists|m: int| 0 <= m < kj1.len() && kj1[m] == w);
        let m = choose|m: int| 0 <= m < kj1.len() && kj1[m] == w;
        assert(w.group_of() == g);
        assert(0 <= m < kept_prefix(items, (j + 1) as nat).len());
        assert(kept_prefix(items, items.len())[m] == kept_prefix(items, (j + 1) as nat)[m]);
        assert(m < most_specific(items).len());
        assert(most_specific(items)[m].group_of() == items[i].group_of());
        assert(most_specific(items)[m].group_of() == items[i].group_of());
    }
}

/// The highest tier in the group of `items[i]`.
fn top_tier_of<T: Relationship>(items: &Vec<T>, i: usize) -> (r: u8)
    requires
        i < items@.len(),
    ensures
        r == top_tier(items@, items@[i as int].group_of()),
{
    let ghost g = items@[i as int].group_of();
    let mut m: u8 = 0;
    let mut j: usize = 0;
    while j < items.len()
        invariant
            i < items@.len(),
            j <= items@.len(),
            g == items@[i as int].group_of(),
            m == top_tier(items@.take(j as int), g),
        decreases items@.len() - j,
    {
        assert(items@.take(j + 1).drop_last() =~= items@.take(j as int));
        if items[j].same_group(&items[i]) {
            let t = items[j].tier();
            if t > m {
                m = t;
            }
        }
        j += 1;
    }
    assert(items@.take(j as int) =~= items@);
    m
}

/// Among items sharing a group, keeps only those at the highest
/// specificity tier present in that group, and drops repeated identities
/// (the first one stays). Order is preserved.
pub fn keep_most_specific<T: Relationship>(items: Vec<T>) -> (r: Vec<T>)
    ensures
        r@ == most_specific(items@),
{
    let ghost orig = items@;
    let n = items.len();
    // pass 1: decide which indices survive
    let mut flags: Vec<bool> = Vec::new();
    let mut i: usize = 0;
    while i < n
        invariant
            n == items@.len(),
            orig == items@,
            i <= n,
            flags@.len() == i,
            kept_prefix(orig, i as nat) == select(orig.take(i as int), flags@),
        decreases n - i,
    {
        let top = top_tier_of(&items, i);
        let t = items[i].tier();
        let mut dup = false;
        if t == top {
            let mut j: usize = 0;
            while j < i
                invariant
                    i < n,
                    n == items@.len(),
                    j <= i,
                    flags@.len() == i,
                    dup == exists|q: int| 0 <= q < j && flags@[q] && (#[trigger] items@[q]).identity_of() == items@[i as int].identity_of(),
                decreases i - j,
            {
                if flags[j] && items[j].same_identity(&items[i]) {
                    dup = true;
                }
                j += 1;
            }
        }
        proof {
            let s = orig.take(i as int);
            lemma_select_identity(s, flags@, orig[i as int].identity_of());
            assert forall|q: int| 0 <= q < i implies #[trigger] s[q] == items@[q] by {}
            assert(orig.take(i + 1).drop_last() =~= s);
        }
        let keep = t == top && !dup;
        let ghost old_flags = flags@;
        flags.push(keep);
        proof {
            let s = orig.take(i as int);
            let s1 = orig.take(i + 1);
            assert(flags@.drop_last() =~= old_flags);
            assert(s1.drop_last() =~= s);
            assert(s1.last() == orig[i as int]);
            assert(t == top <==> at_top(orig, orig[i as int]));
            if t == top {
                let id = orig[i as int].identity_of();
                lemma_select_identity(s, old_flags, id);
                if dup {
                    let q = choose|q: int| 0 <= q < i && old_flags[q] && (#[trigger] items@[q]).identity_of() == id;
                    assert(s[q] == items@[q]);
                    assert(old_flags[q] && s[q].identity_of() == id);
                }
                if has_identity(kept_prefix(orig, i as nat), id) {
                    let q = choose|q: int| 0 <= q < s.len() && old_flags[q] && (#[trigger] s[q]).identity_of() == id;
                    assert(s[q] == items@[q]);
                    assert(old_flags[q] && items@[q].identity_of() == id);
                }
                assert(dup <==> has_identity(kept_prefix(orig, i as nat), id));
            }
            assert(kept_prefix(orig, (i + 1) as nat) == select(s1, flags@));
        }
        i += 1;
    }
    assert(orig.take(n as int) =~= orig);
    // pass 2: move the survivors out, front first
    let mut v = items;
    let mut rev: Vec<T> = Vec::new();
    while v.len() > 0
        invariant
            rev@.len() + v@.len() == orig.len(),
            forall|k: int| 0 <= k < v@.len() ==> #[trigger] v@[k] == orig[k],
            forall|k: int| 0 <= k < rev@.len() ==> #[trigger] rev@[k] == orig[orig.len() - 1 - k],
        decreases v@.len(),
    {
        let ghost before = v@;
        let item = v.pop().unwrap();
        proof {
            assert forall|k: int| 0 <= k < v@.len() implies #[trigger] v@[k] == orig[k] by {
                assert(v@[k] == before[k]);
            }
        }
        rev.push(item);
    }
    let mut out: Vec<T> = Vec::new();
    let mut p: usize = 0;
    while p < n
        invariant
            n == orig.len(),
            flags@.len() == n,
            p <= n,
            rev@.len() + p == n,
            forall|k: int| 0 <= k < rev@.len() ==> #[trigger] rev@[k] == orig[orig.len() - 1 - k],
            out@ == select(orig.take(p as int), flags@.take(p as int)),
        decreases n - p,
    {
        let ghost before = rev@;
        let item = rev.pop().unwrap();
        assert(item == orig[p as int]);
        proof {
            assert(orig.take(p + 1).drop_last() =~= orig.take(p as int));
            assert(flags@.take(p + 1).drop_last() =~= flags@.take(p as int));
            assert forall|k: int| 0 <= k < rev@.len() implies #[trigger] rev@[k] == orig[orig.len() - 1 - k] by {
                assert(rev@[k] == before[k]);
            }
        }
        if flags[p] {
            out.push(item);
        }
        p += 1;
    }
    assert(flags@.take(n as int) =~= flags@);
    out
}

// ── Graph edges ────────────────────────────────────────────────────────────

/// A directed edge of the relationship graph.
#[derive(Debug, Clone)]
pub struct GraphEdge {
    pub from_id: String,
    pub from_kind: String,
    pub to_id: String,
    pub to_kind: String,
    pub rel_type: String,
    pub notes: Option<String>,
}

/// `kind:id`, the record key of an endpoint.
pub open spec fn record_key(kind: Seq<char>, id: Seq<char>) -> Seq<char> {
    kind + seq![':'] + id
}

/// The unordered pair an edge connects: its two record keys, smaller first.
pub open spec fn pair_key_spec(e: GraphEdge) -> (Seq<char>, Seq<char>) {
    let a = record_key(e.from_kind@, e.from_id@);
    let b = record_key(e.to_kind@, e.to_id@);
    if lex_le(a, b) {
        (a, b)
    } else {
        (b, a)
    }
}

/// What makes two edges the same: endpoints and relationship type.
pub open spec fn identity_spec(e: GraphEdge) -> Seq<Seq<char>> {
    seq![e.from_kind@, e.from_id@, e.to_kind@, e.to_id@, e.rel_type@]
}

fn record_key_chars(kind: &String, id: &String) -> (r: Vec<char>)
    ensures
        r@ == record_key(kind@, id@),
{
    let mut out = chars_of(kind.as_str());
    out.push(':');
    extend_str(&mut out, id.as_str());
    out
}

/// The unordered pair key of an edge, so that A→B and B→A group together.
pub fn pair_key(e: &GraphEdge) -> (r: (String, String))
    ensures
        (r.0@, r.1@) == pair_key_spec(*e),
{
    let a = record_key_chars(&e.from_kind, &e.from_id);
    let b = record_key_chars(&e.to_kind, &e.to_id);
    if lex_le_chars(&a, &b) {
        (string_of(&a), string_of(&b))
    } else {
        (string_of(&b), string_of(&a))
    }
}

/// The identity of an edge: kinds and ids of both ends and the type.
pub fn identity(e: &GraphEdge) -> (r: (String, String, String, String, String))
    ensures
        seq![r.0@, r.1@, r.2@, r.3@, r.4@] == identity_spec(*e),
{
    (e.from_kind.clone(), e.from_id.clone(), e.to_kind.clone(), e.to_id.clone(), e.rel_type.clone())
}

impl Relationship for GraphEdge {
    open spec fn group_of(&self) -> Seq<Seq<char>> {
        seq![pair_key_spec(*self).0, pair_key_spec(*self).1]
    }

    open spec fn identity_of(&self) -> Seq<Seq<char>> {
        identity_spec(*self)
    }

    open spec fn rel_of(&self) -> Seq<char> {
        self.rel_type@
    }

    fn same_group(&self, other: &Self) -> (r: bool) {
        let (a1, b1) = pair_key(self);
        let (a2, b2) = pair_key(other);
        let r = a1 == a2 && b1 == b2;
        proof {
            let g1 = seq![a1@, b1@];
            let g2 = seq![a2@, b2@];
            if g1 == g2 {
                assert(g1[0] == g2[0] && g1[1] == g2[1]);
            }
        }
        r
    }

    fn same_identity(&self, other: &Self) -> (r: bool) {
        let r = self.from_kind == other.from_kind && self.from_id == other.from_id && self.to_kind
            == other.to_kind && self.to_id == other.to_id && self.rel_type == other.rel_type;
        proof {
            let x = identity_spec(*self);
            let y = identity_spec(*other);
            if x == y {
                assert(x[0] == y[0] && x[1] == y[1] && x[2] == y[2] && x[3] == y[3] && x[4] == y[4]);
            }
            if r {
                assert(x =~= y);
            }
        }
        r
    }

    fn tier(&self) -> (r: u8) {
        rel_specificity(self.rel_type.as_str())
    }
}

/// Collapses the parallel edges of a graph: per unordered pair of entities
/// only the most specific relationship types survive, each edge once.
pub fn collapse(edges: Vec<GraphEdge>) -> (r: Vec<GraphEdge>)
    ensures
        r@ == most_specific(edges@),
{
    keep_most_specific(edges)
}

/// Collapsing a graph never loses a connection: every pair of entities
/// joined by some edge is still joined by a kept edge.
pub proof fn lemma_collapse_keeps_every_pair(edges: Seq<GraphEdge>)
    ensures
        forall|i: int| 0 <= i < edges.len() ==> has_group(most_specific(edges), #[trigger] edges[i].group_of()),
{
    assert forall|a: int, b: int| 0 <= a < edges.len() && 0 <= b < edges.len() && (#[trigger] edges[a]).identity_of() == (#[trigger] edges[b]).identity_of() implies edges[a].group_of() == edges[b].group_of() by {
        let x = identity_spec(edges[a]);
        let y = identity_spec(edges[b]);
        assert(x[0] == y[0] && x[1] == y[1] && x[2] == y[2] && x[3] == y[3]);
    }
    lemma_most_specific_covers(edges);
}

/// Splits `kind:id` at its first colon.
pub open spec fn split_record(s: Seq<char>) -> Option<(Seq<char>, Seq<char>)> {
    if exists|k: int| 0 <= k < s.len() && s[k] == ':' {
        let k = choose|k: int| 0 <= k < s.len() && s[k] == ':' && forall|j: int| 0 <= j < k ==> s[j] != ':';
        Some((s.take(k), s.skip(k + 1)))
    } else {
        None
    }
}

fn split_record_chars(s: &str) -> (r: Option<(String, String)>)
    ensures
        match r {
            Some((a, b)) => split_record(s@) == Some((a@, b@)),
            None => split_record(s@) is None,
        },
{
    let cs = chars_of(s);
    let mut k: usize = 0;
    while k < cs.len() && cs[k] != ':'
        invariant
            k <= cs@.len(),
            cs@ == s@,
            forall|j: int| 0 <= j < k ==> cs@[j] != ':',
        decreases cs@.len() - k,
    {
        k += 1;
    }
    if k == cs.len() {
        return None;
    }
    let a = crate::text::slice_chars(&cs, 0, k);
    let b = crate::text::slice_chars(&cs, k + 1, cs.len());
    proof {
        let kk = choose|kk: int| 0 <= kk < s@.len() && s@[kk] == ':' && forall|j: int| 0 <= j < kk ==> s@[j] != ':';
        assert(kk == k) by {
            if kk < k {
                assert(cs@[kk] != ':');
            }
            if kk > k {
                assert(s@[k as int] == ':');
            }
        }
        assert(a@ =~= s@.take(k as int));
        assert(b@ =~= s@.skip(k + 1));
    }
    Some((string_of(&a), string_of(&b)))
}

/// An edge from `kind:id` to `kind:id` with the given type and no notes;
/// `None` when an endpoint has no colon.
pub fn make_edge(from: &str, to: &str, rel: &str) -> (r: Option<GraphEdge>)
    ensures
        match r {
            Some(e) => split_record(from@) == Some((e.from_kind@, e.from_id@)) && split_record(to@)
                == Some((e.to_kind@, e.to_id@)) && e.rel_type@ == rel@ && e.notes is None,
            None => split_record(from@) is None || split_record(to@) is None,
        },
{
    let f = split_record_chars(from);
    let t = split_record_chars(to);
    match (f, t) {
        (Some((ft, fi)), Some((tt, ti))) => Some(
            GraphEdge { from_id: fi, from_kind: ft, to_id: ti, to_kind: tt, rel_type: rel.to_owned(), notes: None },
        ),
        _ => None,
    }
}

// ── Relating under the tier rule ───────────────────────────────────────────

/// What creating an edge under the tier rule does.
#[derive(Debug, Clone, PartialEq, Eq)]
pub enum CollapsePlan {
    /// A more specific relationship already joins the pair: nothing is done.
    Skip,
    /// Delete the pair's edges of these (lower-tier) types, then create.
    Create { delete_lower: Vec<String> },
}

/// The highest tier among `types` (0 when there is none).
pub open spec fn max_tier(types: Seq<String>) -> u8
    decreases types.len(),
{
    if types.len() == 0 {
        0
    } else {
        let m = max_tier(types.drop_last());
        let t = rel_tier(types.last()@);
        if t > m {
            t
        } else {
            m
        }
    }
}

/// The weak types (`mentioned`, `related_to`, `knows`) below tier `t`, in
/// that order.
pub open spec fn lower_types(t: u8) -> Seq<Seq<char>> {
    if t == 0 {
        seq![]
    } else if t == 1 {
        seq!["mentioned"@]
    } else {
        seq!["mentioned"@, "related_to"@, "knows"@]
    }
}

/// The decision of `relate_collapsing` for a new edge of type `rel_type`
/// between a pair whose existing edges have types `existing`: skip when a
/// strictly more specific type exists; else delete the weaker types and
/// create.
pub fn plan_relate_collapsing(rel_type: &str, existing: &[String]) -> (r: CollapsePlan)
    ensures
        rel_tier(rel_type@) < max_tier(existing@) <==> r is Skip,
        r matches CollapsePlan::Create { delete_lower } ==> delete_lower@.map_values(|s: String| s@)
            == lower_types(rel_tier(rel_type@)),
{
    let new_tier = rel_specificity(rel_type);
    let mut m: u8 = 0;
    let mut i: usize = 0;
    while i < existing.len()
        invariant
            i <= existing@.len(),
            m == max_tier(existing@.take(i as int)),
        decreases existing@.len() - i,
    {
        assert(existing@.take(i + 1).drop_last() =~= existing@.take(i as int));
        let t = rel_specificity(existing[i].as_str());
        if t > m {
            m = t;
        }
        i += 1;
    }
    assert(existing@.take(i as int) =~= existing@);
    if new_tier < m {
        return CollapsePlan::Skip;
    }
    let mut lower: Vec<String> = Vec::new();
    if new_tier >= 1 {
        lower.push("mentioned".to_owned());
    }
    if new_tier >= 2 {
        lower.push("related_to".to_owned());
        lower.push("knows".to_owned());
    }
    proof {
        reveal_strlit("mentioned");
        reveal_strlit("related_to");
        reveal_strlit("knows");
        assert(lower@.map_values(|s: String| s@) =~= lower_types(new_tier));
    }
    CollapsePlan::Create { delete_lower: lower }
}

proof fn lemma_max_tier_bound(types: Seq<String>, i: int)
    requires
        0 <= i < types.len(),
    ensures
        rel_tier(types[i]@) <= max_tier(types),
    decreases types.len(),
{
    if i < types.len() - 1 {
        lemma_max_tier_bound(types.drop_last(), i);
    }
}

/// Relating under the tier rule leaves one tier between a pair: when the
/// new edge is created, every older edge of the pair that is not deleted
/// as weaker is of the new edge's tier.
pub proof fn lemma_relate_collapsing_leaves_one_tier(existing: Seq<String>, rel_type: Seq<char>)
    requires
        !(rel_tier(rel_type) < max_tier(existing)),
    ensures
        forall|i: int| 0 <= i < existing.len() && !lower_types(rel_tier(rel_type)).contains(#[trigger] existing[i]@)
            ==> rel_tier(existing[i]@) == rel_tier(rel_type),
{
    assert forall|i: int| 0 <= i < existing.len() && !lower_types(rel_tier(rel_type)).contains(#[trigger] existing[i]@)
        implies rel_tier(existing[i]@) == rel_tier(rel_type) by {
        lemma_max_tier_bound(existing, i);
        let t = existing[i]@;
        let lt = lower_types(rel_tier(rel_type));
        if rel_tier(t) < rel_tier(rel_type) {
            if t == "mentioned"@ {
                assert(lt[0] == t);
            } else if t == "related_to"@ {
                assert(lt[1] == t);
            } else {
                assert(t == "knows"@);
                assert(lt[2] == t);
            }
        }
    }
}

// ── Relations of one entity ────────────────────────────────────────────────

/// An edge touching the center, as read from the store.
#[derive(Debug, Clone)]
pub struct EdgeRow {
    pub in_kind: String,
    pub in_id: String,
    pub out_kind: String,
    pub out_id: String,
    pub rel_type: String,
}

/// The far end of an edge, seen from the center.
#[derive(Debug, Clone)]
pub struct Endpoint {
    pub table: String,
    pub other_id: String,
    pub rel_type: String,
    pub direction: String,
}

impl Relationship for Endpoint {
    open spec fn group_of(&self) -> Seq<Seq<char>> {
        seq![self.table@, self.other_id@]
    }

    open spec fn identity_of(&self) -> Seq<Seq<char>> {
        seq![self.table@, self.other_id@, self.rel_type@, self.direction@]
    }

    open spec fn rel_of(&self) -> Seq<char> {
        self.rel_type@
    }

    fn same_group(&self, other: &Self) -> (r: bool) {
        let r = self.table == other.table && self.other_id == other.other_id;
        proof {
            let x = self.group_of();
            let y = other.group_of();
            if x == y {
                assert(x[0] == y[0] && x[1] == y[1]);
            }
            if r {
                assert(x =~= y);
            }
        }
        r
    }

    fn same_identity(&self, other: &Self) -> (r: bool) {
        let r = self.table == other.table && self.other_id == other.other_id && self.rel_type
            == other.rel_type && self.direction == other.direction;
        proof {
            let x = self.identity_of();
            let y = other.identity_of();
            if x == y {
                assert(x[0] == y[0] && x[1] == y[1] && x[2] == y[2] && x[3] == y[3]);
            }
            if r {
                assert(x =~= y);
            }
        }
        r
    }

    fn tier(&self) -> (r: u8) {
        rel_specificity(self.rel_type.as_str())
    }
}

/// The far end of one edge seen from `kind:id`: an edge leaving the center
/// is outbound to its target, any other edge inbound from its source; an
/// edge from the center to itself has none.
pub open spec fn far_end(id: Seq<char>, kind: Seq<char>, row: EdgeRow) -> Option<(Seq<char>, Seq<char>, Seq<char>, Seq<char>)> {
    if row.in_id@ == id && row.in_kind@ == kind {
        if row.out_id@ == id && row.out_kind@ == kind {
            None
        } else {
            Some((row.out_kind@, row.out_id@, row.rel_type@, "outbound"@))
        }
    } else {
        Some((row.in_kind@, row.in_id@, row.rel_type@, "inbound"@))
    }
}

/// The far ends of the given edges seen from `kind:id`, in the order of the
/// edges.
pub open spec fn endpoints_spec(id: Seq<char>, kind: Seq<char>, rows: Seq<EdgeRow>) -> Seq<(Seq<char>, Seq<char>, Seq<char>, Seq<char>)>
    decreases rows.len(),
{
    if rows.len() == 0 {
        Seq::empty()
    } else {
        let prev = endpoints_spec(id, kind, rows.drop_last());
        match far_end(id, kind, rows.last()) {
            Some(v) => prev.push(v),
            None => prev,
        }
    }
}

proof fn lemma_endpoints_from(id: Seq<char>, kind: Seq<char>, rows: Seq<EdgeRow>, j: int)
    requires
        0 <= j < endpoints_spec(id, kind, rows).len(),
    ensures
        exists|k: int| 0 <= k < rows.len() && #[trigger] far_end(id, kind, rows[k]) == Some(endpoints_spec(id, kind, rows)[j]),
    decreases rows.len(),
{
    let d = rows.drop_last();
    let p = endpoints_spec(id, kind, d);
    let s = endpoints_spec(id, kind, rows);
    if j < p.len() {
        assert(s[j] == p[j]);
        lemma_endpoints_from(id, kind, d, j);
        let k = choose|k: int| 0 <= k < d.len() && #[trigger] far_end(id, kind, d[k]) == Some(p[j]);
        assert(d[k] == rows[k]);
    } else {
        assert(far_end(id, kind, rows[rows.len() - 1]) == Some(s[j]));
    }
}

proof fn lemma_endpoints_has(id: Seq<char>, kind: Seq<char>, rows: Seq<EdgeRow>, k: int)
    requires
        0 <= k < rows.len(),
        far_end(id, kind, rows[k]) is Some,
    ensures
        exists|j: int| 0 <= j < endpoints_spec(id, kind, rows).len() && Some(#[trigger] endpoints_spec(id, kind, rows)[j]) == far_end(id, kind, rows[k]),
    decreases rows.len(),
{
    let d = rows.drop_last();
    let p = endpoints_spec(id, kind, d);
    let s = endpoints_spec(id, kind, rows);
    if k < d.len() {
        assert(d[k] == rows[k]);
        lemma_endpoints_has(id, kind, d, k);
        let j = choose|j: int| 0 <= j < p.len() && Some(#[trigger] p[j]) == far_end(id, kind, d[k]);
        assert(s[j] == p[j]);
    } else {
        assert(Some(s[s.len() - 1]) == far_end(id, kind, rows[k]));
    }
}

/// The view of an endpoint.
pub open spec fn endpoint_view(e: Endpoint) -> (Seq<char>, Seq<char>, Seq<char>, Seq<char>) {
    (e.table@, e.other_id@, e.rel_type@, e.direction@)
}

/// Classifies the edges touching `kind:id` by direction.
pub fn edge_endpoints(id: &str, kind: &str, rows: &[EdgeRow]) -> (r: Vec<Endpoint>)
    ensures
        r@.map_values(|e: Endpoint| endpoint_view(e)) == endpoints_spec(id@, kind@, rows@),
{
    let mut out: Vec<Endpoint> = Vec::new();
    let mut i: usize = 0;
    while i < rows.len()
        invariant
            i <= rows@.len(),
            out@.map_values(|e: Endpoint| endpoint_view(e)) == endpoints_spec(id@, kind@, rows@.take(i as int)),
        decreases rows@.len() - i,
    {
        let row = &rows[i];
        assert(rows@.take(i + 1).drop_last() =~= rows@.take(i as int));
        let ghost prev = out@;
        if str_eq(row.in_id.as_str(), id) && str_eq(row.in_kind.as_str(), kind) {
            if str_eq(row.out_id.as_str(), id) && str_eq(row.out_kind.as_str(), kind) {
            } else {
                let ep = Endpoint {
                    table: row.out_kind.clone(),
                    other_id: row.out_id.clone(),
                    rel_type: row.rel_type.clone(),
                    direction: "outbound".to_owned(),
                };
                out.push(ep);
                assert(out@.map_values(|e: Endpoint| endpoint_view(e)) =~= prev.map_values(
                    |e: Endpoint| endpoint_view(e),
                ).push(endpoint_view(ep)));
            }
        } else {
            let ep = Endpoint {
                table: row.in_kind.clone(),
                other_id: row.in_id.clone(),
                rel_type: row.rel_type.clone(),
                direction: "inbound".to_owned(),
            };
            out.push(ep);
            assert(out@.map_values(|e: Endpoint| endpoint_view(e)) =~= prev.map_values(
                |e: Endpoint| endpoint_view(e),
            ).push(endpoint_view(ep)));
        }
        i += 1;
    }
    assert(rows@.take(i as int) =~= rows@);
    out
}

/// A name read for a record.
#[derive(Debug, Clone)]
pub struct NameRow {
    pub kind: String,
    pub id: String,
    pub name: String,
}

/// An entity related to the center.
#[derive(Debug, Clone)]
pub struct RelatedEntity {
    pub id: String,
    pub kind: String,
    pub name: String,
    pub rel_type: String,
    pub direction: String,
}

/// The name recorded last for `kind:id` among the first `n` rows.
pub open spec fn name_of(names: Seq<NameRow>, kind: Seq<char>, id: Seq<char>, n: nat) -> Option<Seq<char>>
    decreases n,
{
    if n == 0 || n > names.len() {
        None
    } else {
        let r = names[n - 1];
        if r.kind@ == kind && r.id@ == id {
            Some(r.name@)
        } else {
            name_of(names, kind, id, (n - 1) as nat)
        }
    }
}

/// The related entities of the given endpoints whose name is known, in the
/// order of the endpoints.
pub open spec fn named_spec(eps: Seq<Endpoint>, names: Seq<NameRow>) -> Seq<(Seq<char>, Seq<char>, Seq<char>, Seq<char>, Seq<char>)>
    decreases eps.len(),
{
    if eps.len() == 0 {
        Seq::empty()
    } else {
        let prev = named_spec(eps.drop_last(), names);
        let e = eps.last();
        match name_of(names, e.table@, e.other_id@, names.len()) {
            Some(nm) => prev.push((e.other_id@, e.table@, nm, e.rel_type@, e.direction@)),
            None => prev,
        }
    }
}

/// The view of a related entity.
pub open spec fn related_view(r: RelatedEntity) -> (Seq<char>, Seq<char>, Seq<char>, Seq<char>, Seq<char>) {
    (r.id@, r.kind@, r.name@, r.rel_type@, r.direction@)
}

/// `x` is the related entity made of endpoint `e` and the name found for it.
pub open spec fn named_from(x: (Seq<char>, Seq<char>, Seq<char>, Seq<char>, Seq<char>), e: Endpoint, names: Seq<NameRow>) -> bool {
    &&& x.0 == e.other_id@
    &&& x.1 == e.table@
    &&& x.3 == e.rel_type@
    &&& x.4 == e.direction@
    &&& name_of(names, e.table@, e.other_id@, names.len()) == Some(x.2)
}

proof fn lemma_named_from(eps: Seq<Endpoint>, names: Seq<NameRow>, j: int)
    requires
        0 <= j < named_spec(eps, names).len(),
    ensures
        exists|m: int| 0 <= m < eps.len() && #[trigger] named_from(named_spec(eps, names)[j], eps[m], names),
    decreases eps.len(),
{
    let d = eps.drop_last();
    let p = named_spec(d, names);
    let s = named_spec(eps, names);
    if j < p.len() {
        assert(s[j] == p[j]);
        lemma_named_from(d, names, j);
        let m = choose|m: int| 0 <= m < d.len() && #[trigger] named_from(p[j], d[m], names);
        assert(d[m] == eps[m]);
    } else {
        assert(named_from(s[j], eps[eps.len() - 1], names));
    }
}

proof fn lemma_named_has(eps: Seq<Endpoint>, names: Seq<NameRow>, m: int)
    requires
        0 <= m < eps.len(),
        name_of(names, eps[m].table@, eps[m].other_id@, names.len()) is Some,
    ensures
        exists|j: int| 0 <= j < named_spec(eps, names).len() && #[trigger] named_from(named_spec(eps, names)[j], eps[m], names),
    decreases eps.len(),
{
    let d = eps.drop_last();
    let p = named_spec(d, names);
    let s = named_spec(eps, names);
    if m < d.len() {
        assert(d[m] == eps[m]);
        lemma_named_has(d, names, m);
        let j = choose|j: int| 0 <= j < p.len() && #[trigger] named_from(p[j], d[m], names);
        assert(s[j] == p[j]);
    } else {
        assert(named_from(s[s.len() - 1], eps[m], names));
    }
}

proof fn lemma_named_pair(eps: Seq<Endpoint>, names: Seq<NameRow>, a: int, b: int)
    requires
        0 <= a < b < named_spec(eps, names).len(),
    ensures
        exists|ma: int, mb: int| 0 <= ma < mb < eps.len() && #[trigger] named_from(named_spec(eps, names)[a], eps[ma], names)
            && #[trigger] named_from(named_spec(eps, names)[b], eps[mb], names),
    decreases eps.len(),
{
    let d = eps.drop_last();
    let p = named_spec(d, names);
    let s = named_spec(eps, names);
    assert(s[a] == p[a]);
    if b < p.len() {
        assert(s[b] == p[b]);
        lemma_named_pair(d, names, a, b);
        let (ma, mb) = choose|ma: int, mb: int| 0 <= ma < mb < d.len() && #[trigger] named_from(p[a], d[ma], names)
            && #[trigger] named_from(p[b], d[mb], names);
        assert(d[ma] == eps[ma] && d[mb] == eps[mb]);
    } else {
        lemma_named_from(d, names, a);
        let ma = choose|ma: int| 0 <= ma < d.len() && #[trigger] named_from(p[a], d[ma], names);
        assert(d[ma] == eps[ma]);
        assert(named_from(s[b], eps[eps.len() - 1], names));
    }
}

fn lookup_name(names: &[NameRow], kind: &String, id: &String) -> (r: Option<String>)
    ensures
        match r {
            Some(s) => name_of(names@, kind@, id@, names@.len()) == Some(s@),
            None => name_of(names@, kind@, id@, names@.len()) is None,
        },
{
    let mut i = names.len();
    while i > 0
        invariant
            i <= names@.len(),
            name_of(names@, kind@, id@, names@.len()) == name_of(names@, kind@, id@, i as nat),
        decreases i,
    {
        let r = &names[i - 1];
        if r.kind == *kind && r.id == *id {
            return Some(r.name.clone());
        }
        i -= 1;
    }
    None
}

/// Joins endpoints with the names that were found; endpoints without a
/// name are dropped.
pub fn name_endpoints(eps: Vec<Endpoint>, names: &[NameRow]) -> (r: Vec<RelatedEntity>)
    ensures
        r@.map_values(|x: RelatedEntity| related_view(x)) == named_spec(eps@, names@),
{
    let mut out: Vec<RelatedEntity> = Vec::new();
    let mut i: usize = 0;
    while i < eps.len()
        invariant
            i <= eps@.len(),
            out@.map_values(|x: RelatedEntity| related_view(x)) == named_spec(eps@.take(i as int), names@),
        decreases eps@.len() - i,
    {
        let e = &eps[i];
        assert(eps@.take(i + 1).drop_last() =~= eps@.take(i as int));
        let ghost prev = out@;
        match lookup_name(names, &e.table, &e.other_id) {
            Some(nm) => {
                let x = RelatedEntity {
                    id: e.other_id.clone(),
                    kind: e.table.clone(),
                    name: nm,
                    rel_type: e.rel_type.clone(),
                    direction: e.direction.clone(),
                };
                out.push(x);
                assert(out@.map_values(|x: RelatedEntity| related_view(x)) =~= prev.map_values(
                    |x: RelatedEntity| related_view(x),
                ).push(related_view(x)));
            },
            None => {},
        }
        i += 1;
    }
    assert(eps@.take(i as int) =~= eps@);
    out
}

impl TotalPreorder for RelatedEntity {
    open spec fn before_eq(&self, other: &Self) -> bool {
        lex_le(self.name@, other.name@)
    }

    fn le(&self, other: &Self) -> (r: bool) {
        let a = chars_of(self.name.as_str());
        let b = chars_of(other.name.as_str());
        lex_le_chars(&a, &b)
    }

    proof fn lemma_total(a: &Self, b: &Self) {
        lemma_lex_total(a.name@, b.name@);
    }

    proof fn lemma_trans(a: &Self, b: &Self, c: &Self) {
        lemma_lex_trans(a.name@, b.name@, c.name@);
    }
}

/// The views of endpoints.
pub open spec fn endpoint_views(eps: Seq<Endpoint>) -> Seq<(Seq<char>, Seq<char>, Seq<char>, Seq<char>)> {
    eps.map_values(|e: Endpoint| endpoint_view(e))
}

/// The views of related entities.
pub open spec fn related_views(l: Seq<RelatedEntity>) -> Seq<(Seq<char>, Seq<char>, Seq<char>, Seq<char>, Seq<char>)> {
    l.map_values(|x: RelatedEntity| related_view(x))
}

/// What identifies a relation in the list: the far entity, the type and the
/// direction.
pub open spec fn rel_identity(x: RelatedEntity) -> (Seq<char>, Seq<char>, Seq<char>, Seq<char>) {
    (x.kind@, x.id@, x.rel_type@, x.direction@)
}

/// No edge to the same far entity as `e` has a more specific type than `e`.
pub open spec fn tops_its_entity(id: Seq<char>, kind: Seq<char>, rows: Seq<EdgeRow>, e: (Seq<char>, Seq<char>, Seq<char>, Seq<char>)) -> bool {
    forall|k: int|
        0 <= k < rows.len() ==> ((#[trigger] far_end(id, kind, rows[k])) matches Some(f) ==> (f.0 == e.0 && f.1 == e.1
            ==> rel_tier(f.2) <= rel_tier(e.2)))
}

/// The steps of `related_entities` as they relate its input to its result.
pub open spec fn relations_pipeline(id: Seq<char>, kind: Seq<char>, rows: Seq<EdgeRow>, names: Seq<NameRow>, eps: Seq<Endpoint>, named: Seq<RelatedEntity>, r: Seq<RelatedEntity>) -> bool {
    &&& endpoint_views(eps) == endpoints_spec(id, kind, rows)
    &&& related_views(named) == named_spec(most_specific(eps), names)
    &&& forall|x: RelatedEntity| #[trigger] crate::order::class_of(r, x) == crate::order::class_of(named, x)
}

proof fn lemma_group_eq(e: Endpoint, f: Endpoint)
    ensures
        e.group_of() == f.group_of() <==> (e.table@ == f.table@ && e.other_id@ == f.other_id@),
        e.identity_of() == f.identity_of() <==> endpoint_view(e) == endpoint_view(f),
{
    if e.group_of() == f.group_of() {
        assert(e.group_of()[0] == f.group_of()[0] && e.group_of()[1] == f.group_of()[1]);
    }
    if e.table@ == f.table@ && e.other_id@ == f.other_id@ {
        assert(e.group_of() =~= f.group_of());
    }
    if e.identity_of() == f.identity_of() {
        assert(e.identity_of()[0] == f.identity_of()[0] && e.identity_of()[1] == f.identity_of()[1]);
        assert(e.identity_of()[2] == f.identity_of()[2] && e.identity_of()[3] == f.identity_of()[3]);
    }
    if endpoint_view(e) == endpoint_view(f) {
        assert(e.identity_of() =~= f.identity_of());
    }
}

/// Each listed relation stems from an edge, carries the name found for its
/// far entity, and is of the most specific type among the edges to it.
proof fn lemma_related_item(id: Seq<char>, kind: Seq<char>, rows: Seq<EdgeRow>, names: Seq<NameRow>, eps: Seq<Endpoint>, named: Seq<RelatedEntity>, r: Seq<RelatedEntity>, i: int)
    requires
        relations_pipeline(id, kind, rows, names, eps, named, r),
        0 <= i < r.len(),
    ensures
        name_of(names, r[i].kind@, r[i].id@, names.len()) == Some(r[i].name@),
        exists|k: int| 0 <= k < rows.len() && #[trigger] far_end(id, kind, rows[k]) == Some(rel_identity(r[i])),
        tops_its_entity(id, kind, rows, rel_identity(r[i])),
{
    let ms = most_specific(eps);
    let ns = named_spec(ms, names);
    crate::order::lemma_same_classes_member(r, named, i);
    let j = choose|j: int| 0 <= j < named.len() && named[j] == r[i];
    assert(related_views(named)[j] == related_view(named[j]));
    lemma_named_from(ms, names, j);
    let m = choose|m: int| 0 <= m < ms.len() && #[trigger] named_from(ns[j], ms[m], names);
    lemma_most_specific_top(eps);
    let q = choose|q: int| 0 <= q < eps.len() && eps[q] == #[trigger] ms[m];
    assert(endpoint_views(eps)[q] == endpoint_view(eps[q]));
    lemma_endpoints_from(id, kind, rows, q);
    assert(rel_identity(r[i]) == endpoint_view(ms[m]));
    let g = ms[m].group_of();
    lemma_top_tier(eps, g);
    assert(at_top(eps, ms[m]));
    let e = rel_identity(r[i]);
    assert forall|k: int| 0 <= k < rows.len() implies ((#[trigger] far_end(id, kind, rows[k])) matches Some(f) ==> (f.0 == e.0 && f.1 == e.1
            ==> rel_tier(f.2) <= rel_tier(e.2))) by {
        if far_end(id, kind, rows[k]) is Some {
            lemma_endpoints_has(id, kind, rows, k);
            let q2 = choose|q2: int| 0 <= q2 < endpoints_spec(id, kind, rows).len() && Some(#[trigger] endpoints_spec(id, kind, rows)[q2]) == far_end(id, kind, rows[k]);
            assert(endpoint_views(eps)[q2] == endpoint_view(eps[q2]));
            lemma_group_eq(eps[q2], ms[m]);
        }
    }
}

/// Every relation of the most specific type to a named far entity is listed.
proof fn lemma_related_complete(id: Seq<char>, kind: Seq<char>, rows: Seq<EdgeRow>, names: Seq<NameRow>, eps: Seq<Endpoint>, named: Seq<RelatedEntity>, r: Seq<RelatedEntity>, k: int)
    requires
        relations_pipeline(id, kind, rows, names, eps, named, r),
        0 <= k < rows.len(),
        far_end(id, kind, rows[k]) is Some,
        name_of(names, far_end(id, kind, rows[k]).unwrap().0, far_end(id, kind, rows[k]).unwrap().1, names.len()) is Some,
        tops_its_entity(id, kind, rows, far_end(id, kind, rows[k])->0),
    ensures
        exists|i: int| 0 <= i < r.len() && rel_identity(#[trigger] r[i]) == far_end(id, kind, rows[k])->0,
{
    let f = far_end(id, kind, rows[k])->0;
    let ms = most_specific(eps);
    let ns = named_spec(ms, names);
    lemma_endpoints_has(id, kind, rows, k);
    let q = choose|q: int| 0 <= q < endpoints_spec(id, kind, rows).len() && Some(#[trigger] endpoints_spec(id, kind, rows)[q]) == far_end(id, kind, rows[k]);
    assert(endpoint_views(eps)[q] == endpoint_view(eps[q]));
    let g = eps[q].group_of();
    lemma_top_tier(eps, g);
    let q1 = choose|q1: int| 0 <= q1 < eps.len() && (#[trigger] eps[q1]).group_of() == g && rel_tier(eps[q1].rel_of()) == top_tier(eps, g);
    assert(endpoint_views(eps)[q1] == endpoint_view(eps[q1]));
    lemma_endpoints_from(id, kind, rows, q1);
    let k1 = choose|k1: int| 0 <= k1 < rows.len() && #[trigger] far_end(id, kind, rows[k1]) == Some(endpoint_views(eps)[q1]);
    lemma_group_eq(eps[q1], eps[q]);
    assert(rel_tier(eps[q1].rel_of()) <= rel_tier(f.2));
    assert(at_top(eps, eps[q]));
    lemma_most_specific_keeps_top(eps, q);
    let m = choose|m: int| 0 <= m < ms.len() && (#[trigger] ms[m]).identity_of() == eps[q].identity_of();
    lemma_group_eq(ms[m], eps[q]);
    lemma_named_has(ms, names, m);
    let j = choose|j: int| 0 <= j < ns.len() && #[trigger] named_from(ns[j], ms[m], names);
    assert(related_views(named)[j] == related_view(named[j]));
    assert forall|x: RelatedEntity| #[trigger] crate::order::class_of(named, x) == crate::order::class_of(r, x) by {
        assert(crate::order::class_of(r, x) == crate::order::class_of(named, x));
    }
    crate::order::lemma_same_classes_member(named, r, j);
    let i = choose|i: int| 0 <= i < r.len() && r[i] == named[j];
    assert(rel_identity(r[i]) == f);
}

/// No relation is listed twice.
proof fn lemma_related_unique(id: Seq<char>, kind: Seq<char>, rows: Seq<EdgeRow>, names: Seq<NameRow>, eps: Seq<Endpoint>, named: Seq<RelatedEntity>, r: Seq<RelatedEntity>, a: int, b: int)
    requires
        relations_pipeline(id, kind, rows, names, eps, named, r),
        0 <= a < b < r.len(),
    ensures
        rel_identity(r[a]) != rel_identity(r[b]),
{
    if rel_identity(r[a]) == rel_identity(r[b]) {
        let ms = most_specific(eps);
        let ns = named_spec(ms, names);
        lemma_related_item(id, kind, rows, names, eps, named, r, a);
        lemma_related_item(id, kind, rows, names, eps, named, r, b);
        assert(r[a].name@ == r[b].name@);
        lemma_lex_total(r[a].name@, r[b].name@);
        assert(crate::order::equiv(r[a], r[b]));
        crate::order::lemma_same_classes_pair(r, named, a, b);
        let (c, d) = choose|c: int, d: int| 0 <= c < d < named.len() && named[c] == r[a] && named[d] == r[b];
        assert(related_views(named)[c] == related_view(named[c]));
        assert(related_views(named)[d] == related_view(named[d]));
        lemma_named_pair(ms, names, c, d);
        let (ma, mb) = choose|ma: int, mb: int| 0 <= ma < mb < ms.len() && #[trigger] named_from(ns[c], ms[ma], names)
            && #[trigger] named_from(ns[d], ms[mb], names);
        lemma_group_eq(ms[ma], ms[mb]);
        lemma_most_specific_unique(eps);
        assert(ms[ma].identity_of() != ms[mb].identity_of());
    }
}

/// The relations list of an entity from its edges and the names found for
/// the far ends: endpoints classified, parallel relationships collapsed per
/// far end, unnamed ends dropped, the rest sorted by name (stably).
///
/// So the list is sorted by name; each entry stems from an edge (outbound
/// when the edge leaves the entity, inbound otherwise, never from a
/// self-loop), carries the name found for its far entity, and is of the most
/// specific type among the edges to that entity; every such relation to a
/// named far entity is listed, and none twice.
pub fn related_entities(id: &str, kind: &str, rows: &[EdgeRow], names: &[NameRow]) -> (r: Vec<RelatedEntity>)
    ensures
        crate::order::sorted_by_preorder(r@),
        exists|eps: Seq<Endpoint>, named: Seq<RelatedEntity>| #[trigger] relations_pipeline(id@, kind@, rows@, names@, eps, named, r@),
        forall|i: int| 0 <= i < r@.len() ==> name_of(names@, r@[i].kind@, r@[i].id@, names@.len()) == Some(#[trigger] r@[i].name@),
        forall|i: int| #![trigger r@[i]] 0 <= i < r@.len() ==> exists|k: int| 0 <= k < rows@.len() && #[trigger] far_end(id@, kind@, rows@[k]) == Some(rel_identity(r@[i])),
        forall|i: int| 0 <= i < r@.len() ==> tops_its_entity(id@, kind@, rows@, rel_identity(#[trigger] r@[i])),
        forall|k: int|
            0 <= k < rows@.len() ==> ((#[trigger] far_end(id@, kind@, rows@[k])) matches Some(e) ==> (name_of(names@, e.0, e.1, names@.len()) is Some
                && tops_its_entity(id@, kind@, rows@, e) ==> exists|i: int| 0 <= i < r@.len() && rel_identity(#[trigger] r@[i]) == e)),
        forall|a: int, b: int| 0 <= a < b < r@.len() ==> rel_identity(#[trigger] r@[a]) != rel_identity(#[trigger] r@[b]),
{
    let eps = edge_endpoints(id, kind, rows);
    let ghost eps_v = eps@;
    let kept = keep_most_specific(eps);
    let named = name_endpoints(kept, names);
    let ghost named_v = named@;
    let r = crate::order::stable_sort(named);
    proof {
        assert(relations_pipeline(id@, kind@, rows@, names@, eps_v, named_v, r@));
        assert forall|i: int| 0 <= i < r@.len() implies name_of(names@, r@[i].kind@, r@[i].id@, names@.len()) == Some(#[trigger] r@[i].name@) by {
            lemma_related_item(id@, kind@, rows@, names@, eps_v, named_v, r@, i);
        }
        assert forall|i: int| #![trigger r@[i]] 0 <= i < r@.len() implies exists|k: int| 0 <= k < rows@.len() && #[trigger] far_end(id@, kind@, rows@[k]) == Some(rel_identity(r@[i])) by {
            lemma_related_item(id@, kind@, rows@, names@, eps_v, named_v, r@, i);
        }
        assert forall|i: int| 0 <= i < r@.len() implies tops_its_entity(id@, kind@, rows@, rel_identity(#[trigger] r@[i])) by {
            lemma_related_item(id@, kind@, rows@, names@, eps_v, named_v, r@, i);
        }
        assert forall|k: int| 0 <= k < rows@.len() implies ((#[trigger] far_end(id@, kind@, rows@[k])) matches Some(e) ==> (name_of(names@, e.0, e.1, names@.len()) is Some
                && tops_its_entity(id@, kind@, rows@, e) ==> exists|i: int| 0 <= i < r@.len() && rel_identity(#[trigger] r@[i]) == e)) by {
            let fe = far_end(id@, kind@, rows@[k]);
            if fe is Some && name_of(names@, fe.unwrap().0, fe.unwrap().1, names@.len()) is Some && tops_its_entity(id@, kind@, rows@, fe.unwrap()) {
                lemma_related_complete(id@, kind@, rows@, names@, eps_v, named_v, r@, k);
            }
        }
        assert forall|a: int, b: int| 0 <= a < b < r@.len() implies rel_identity(#[trigger] r@[a]) != rel_identity(#[trigger] r@[b]) by {
            lemma_related_unique(id@, kind@, rows@, names@, eps_v, named_v, r@, a, b);
        }
    }
    r
}

// ── Statements on edges ────────────────────────────────────────────────────

/// The condition matching edges between two records in either direction.
pub open spec fn pair_filter_spec(a_kind: Seq<char>, a_id: Seq<char>, b_kind: Seq<char>, b_id: Seq<char>) -> Seq<char> {
    "(in = "@ + record_key(a_kind, a_id) + " AND out = "@ + record_key(b_kind, b_id) + ") OR (in = "@
        + record_key(b_kind, b_id) + " AND out = "@ + record_key(a_kind, a_id) + seq![')']
}

fn push_record_key(out: &mut Vec<char>, kind: &str, id: &str)
    ensures
        final(out)@ == old(out)@ + record_key(kind@, id@),
{
    extend_str(out, kind);
    out.push(':');
    extend_str(out, id);
    assert(final(out)@ =~= old(out)@ + record_key(kind@, id@));
}

/// The condition matching the edges between two records, both directions.
pub fn pair_filter(a_kind: &str, a_id: &str, b_kind: &str, b_id: &str) -> (r: String)
    ensures
        r@ == pair_filter_spec(a_kind@, a_id@, b_kind@, b_id@),
{
    let mut out: Vec<char> = Vec::new();
    extend_str(&mut out, "(in = ");
    push_record_key(&mut out, a_kind, a_id);
    extend_str(&mut out, " AND out = ");
    push_record_key(&mut out, b_kind, b_id);
    extend_str(&mut out, ") OR (in = ");
    push_record_key(&mut out, b_kind, b_id);
    extend_str(&mut out, " AND out = ");
    push_record_key(&mut out, a_kind, a_id);
    out.push(')');
    string_of(&out)
}

/// The statement that creates an edge of the bound type `$rel_type` with
/// the bound `$notes`.
pub fn relate_sql(from_kind: &str, from_id: &str, to_kind: &str, to_id: &str) -> (r: String)
    ensures
        r@ == "RELATE "@ + record_key(from_kind@, from_id@) + "->relates_to->"@ + record_key(to_kind@, to_id@)
            + " SET rel_type = $rel_type, notes = $notes, created_at = time::now()"@,
{
    let mut out: Vec<char> = Vec::new();
    extend_str(&mut out, "RELATE ");
    push_record_key(&mut out, from_kind, from_id);
    extend_str(&mut out, "->relates_to->");
    push_record_key(&mut out, to_kind, to_id);
    extend_str(&mut out, " SET rel_type = $rel_type, notes = $notes, created_at = time::now()");
    string_of(&out)
}

/// The statement that deletes the edge of the bound type `$rel_type`
/// between two records, in that direction.
pub fn delete_edge_sql(from_kind: &str, from_id: &str, to_kind: &str, to_id: &str) -> (r: String)
    ensures
        r@ == "DELETE relates_to WHERE in = "@ + record_key(from_kind@, from_id@) + " AND out = "@ + record_key(
            to_kind@,
            to_id@,
        ) + " AND rel_type = $rel_type"@,
{
    let mut out: Vec<char> = Vec::new();
    extend_str(&mut out, "DELETE relates_to WHERE in = ");
    push_record_key(&mut out, from_kind, from_id);
    extend_str(&mut out, " AND out = ");
    push_record_key(&mut out, to_kind, to_id);
    extend_str(&mut out, " AND rel_type = $rel_type");
    string_of(&out)
}

/// The query for every edge touching `kind:id`.
pub fn edges_of_sql(kind: &str, id: &str, with_notes: bool) -> (r: String)
    ensures
        r@ == (if with_notes {
            "SELECT in, out, rel_type, notes FROM relates_to WHERE in = "@
        } else {
            "SELECT in, out, rel_type FROM relates_to WHERE in = "@
        }) + record_key(kind@, id@) + " OR out = "@ + record_key(kind@, id@),
{
    let mut out: Vec<char> = Vec::new();
    if with_notes {
        extend_str(&mut out, "SELECT in, out, rel_type, notes FROM relates_to WHERE in = ");
    } else {
        extend_str(&mut out, "SELECT in, out, rel_type FROM relates_to WHERE in = ");
    }
    push_record_key(&mut out, kind, id);
    extend_str(&mut out, " OR out = ");
    push_record_key(&mut out, kind, id);
    string_of(&out)
}

// ── Nodes of the ego graph ─────────────────────────────────────────────────

/// `(kind, id)` pairs in order: by kind, then by id.
pub open spec fn key_lt(a: (Seq<char>, Seq<char>), b: (Seq<char>, Seq<char>)) -> bool {
    (lex_le(a.0, b.0) && a.0 != b.0) || (a.0 == b.0 && lex_le(a.1, b.1) && a.1 != b.1)
}

/// The records of the ego graph: the center and both ends of every edge.
pub open spec fn graph_keys(kind: Seq<char>, id: Seq<char>, edges: Seq<GraphEdge>) -> Set<(Seq<char>, Seq<char>)> {
    Set::new(|k: (Seq<char>, Seq<char>)| k == (kind, id) || exists|i: int| 0 <= i < edges.len() && (
        k == (edges[i].from_kind@, edges[i].from_id@) || k == (edges[i].to_kind@, edges[i].to_id@)))
}

fn key_lt_exec(a: &(Vec<char>, Vec<char>), b: &(Vec<char>, Vec<char>)) -> (r: bool)
    ensures
        r == key_lt((a.0@, a.1@), (b.0@, b.1@)),
{
    let same_kind = crate::text::chars_eq(&a.0, &b.0);
    if !same_kind {
        lex_le_chars(&a.0, &b.0)
    } else {
        lex_le_chars(&a.1, &b.1) && !crate::text::chars_eq(&a.1, &b.1)
    }
}

/// The views of key pairs.
pub open spec fn key_views(v: Seq<(Vec<char>, Vec<char>)>) -> Seq<(Seq<char>, Seq<char>)> {
    v.map_values(|p: (Vec<char>, Vec<char>)| (p.0@, p.1@))
}

proof fn lemma_key_order(a: (Seq<char>, Seq<char>), b: (Seq<char>, Seq<char>), c: (Seq<char>, Seq<char>))
    ensures
        key_lt(a, b) && key_lt(b, c) ==> key_lt(a, c),
        a != b ==> key_lt(a, b) || key_lt(b, a),
        !(key_lt(a, b) && key_lt(b, a)),
{
    crate::order::lemma_lex_total(a.0, b.0);
    crate::order::lemma_lex_total(a.1, b.1);
    if lex_le(a.0, b.0) && lex_le(b.0, a.0) {
        crate::order::lemma_lex_antisym(a.0, b.0);
    }
    if lex_le(a.1, b.1) && lex_le(b.1, a.1) {
        crate::order::lemma_lex_antisym(a.1, b.1);
    }
    if key_lt(a, b) && key_lt(b, c) {
        if lex_le(a.0, b.0) && lex_le(b.0, c.0) {
            crate::order::lemma_lex_trans(a.0, b.0, c.0);
            if a.0 == c.0 {
                crate::order::lemma_lex_antisym(a.0, b.0);
            }
        }
        if lex_le(a.1, b.1) && lex_le(b.1, c.1) {
            crate::order::lemma_lex_trans(a.1, b.1, c.1);
            if a.1 == c.1 {
                crate::order::lemma_lex_antisym(a.1, b.1);
            }
        }
    }
    if a != b {
        assert(a.0 != b.0 || a.1 != b.1);
    }
}

/// Inserts `x` into the strictly increasing `out`, unless already there.
fn insert_key(out: &mut Vec<(Vec<char>, Vec<char>)>, x: (Vec<char>, Vec<char>))
    requires
        forall|i: int, j: int| 0 <= i < j < old(out)@.len() ==> key_lt(#[trigger] key_views(old(out)@)[i], #[trigger] key_views(old(out)@)[j]),
    ensures
        forall|i: int, j: int| 0 <= i < j < final(out)@.len() ==> key_lt(#[trigger] key_views(final(out)@)[i], #[trigger] key_views(final(out)@)[j]),
        forall|y: (Seq<char>, Seq<char>)| #[trigger] key_views(final(out)@).contains(y) <==> (key_views(old(out)@).contains(y) || y == (x.0@, x.1@)),
{
    let ghost ov = key_views(out@);
    let ghost xv = (x.0@, x.1@);
    let mut p: usize = 0;
    while p < out.len() && key_lt_exec(&out[p], &x)
        invariant
            p <= out@.len(),
            ov == key_views(out@),
            xv == (x.0@, x.1@),
            forall|k: int| 0 <= k < p ==> key_lt(#[trigger] ov[k], xv),
        decreases out@.len() - p,
    {
        assert(ov[p as int] == (out@[p as int].0@, out@[p as int].1@));
        p += 1;
    }
    if p < out.len() && !key_lt_exec(&x, &out[p]) {
        proof {
            assert(ov[p as int] == (out@[p as int].0@, out@[p as int].1@));
            lemma_key_order(ov[p as int], xv, xv);
            assert(ov[p as int] == xv);
            assert forall|y: (Seq<char>, Seq<char>)| ov.contains(y) <==> (ov.contains(y) || y == xv) by {
                if y == xv {
                    assert(ov[p as int] == y);
                }
            }
        }
        return;
    }
    proof {
        if p < ov.len() {
            assert(ov[p as int] == (out@[p as int].0@, out@[p as int].1@));
        }
    }
    out.insert(p, x);
    proof {
        let nv = key_views(out@);
        assert(nv =~= ov.take(p as int) + seq![xv] + ov.skip(p as int));
        assert forall|k: int| p <= k < ov.len() implies key_lt(xv, #[trigger] ov[k]) by {
            if k > p {
                assert(key_lt(ov[p as int], ov[k]));
                lemma_key_order(xv, ov[p as int], ov[k]);
            }
        }
        assert forall|i: int, j: int| 0 <= i < j < nv.len() implies key_lt(#[trigger] nv[i], #[trigger] nv[j]) by {
            if j < p {
                assert(nv[i] == ov[i] && nv[j] == ov[j]);
            } else if j == p {
                assert(nv[i] == ov[i]);
            } else if i < p {
                assert(nv[i] == ov[i] && nv[j] == ov[j - 1]);
                lemma_key_order(ov[i], xv, ov[j - 1]);
            } else if i == p {
                assert(nv[j] == ov[j - 1]);
            } else {
                assert(nv[i] == ov[i - 1] && nv[j] == ov[j - 1]);
            }
        }
        assert forall|y: (Seq<char>, Seq<char>)| nv.contains(y) <==> (ov.contains(y) || y == xv) by {
            if nv.contains(y) {
                let k = choose|k: int| 0 <= k < nv.len() && nv[k] == y;
                if k < p {
                    assert(ov[k] == y);
                } else if k > p {
                    assert(ov[k - 1] == y);
                }
            }
            if ov.contains(y) {
                let k = choose|k: int| 0 <= k < ov.len() && ov[k] == y;
                if k < p {
                    assert(nv[k] == y);
                } else {
                    assert(nv[k + 1] == y);
                }
            }
            if y == xv {
                assert(nv[p as int] == y);
            }
        }
    }
}

/// The records of the ego graph around `kind:id` (the center and every end
/// of the edges), each once, ordered by kind and then id.
pub fn graph_node_keys(kind: &str, id: &str, edges: &[GraphEdge]) -> (r: Vec<(String, String)>)
    ensures
        forall|i: int, j: int| 0 <= i < j < r@.len() ==> key_lt((#[trigger] r@[i].0@, r@[i].1@), (#[trigger] r@[j].0@, r@[j].1@)),
        forall|y: (Seq<char>, Seq<char>)| (exists|k: int| 0 <= k < r@.len() && (r@[k].0@, r@[k].1@) == y) <==> #[trigger] graph_keys(kind@, id@, edges@).contains(y),
{
    let mut out: Vec<(Vec<char>, Vec<char>)> = Vec::new();
    insert_key(&mut out, (chars_of(kind), chars_of(id)));
    let mut i: usize = 0;
    while i < edges.len()
        invariant
            i <= edges@.len(),
            forall|a: int, b: int| 0 <= a < b < out@.len() ==> key_lt(#[trigger] key_views(out@)[a], #[trigger] key_views(out@)[b]),
            forall|y: (Seq<char>, Seq<char>)| #[trigger] key_views(out@).contains(y) <==> (y == (kind@, id@) || exists|e: int| 0 <= e < i && (
                y == (edges@[e].from_kind@, edges@[e].from_id@) || y == (edges@[e].to_kind@, edges@[e].to_id@))),
        decreases edges@.len() - i,
    {
        let e = &edges[i];
        insert_key(&mut out, (chars_of(e.from_kind.as_str()), chars_of(e.from_id.as_str())));
        insert_key(&mut out, (chars_of(e.to_kind.as_str()), chars_of(e.to_id.as_str())));
        proof {
            assert forall|y: (Seq<char>, Seq<char>)| #[trigger] key_views(out@).contains(y) <==> (y == (kind@, id@) || exists|f: int| 0 <= f < i + 1 && (
                y == (edges@[f].from_kind@, edges@[f].from_id@) || y == (edges@[f].to_kind@, edges@[f].to_id@))) by {
                if exists|f: int| 0 <= f < i + 1 && (y == (edges@[f].from_kind@, edges@[f].from_id@) || y == (edges@[f].to_kind@, edges@[f].to_id@)) {
                    let f = choose|f: int| 0 <= f < i + 1 && (y == (edges@[f].from_kind@, edges@[f].from_id@) || y == (edges@[f].to_kind@, edges@[f].to_id@));
                    if f < i {
                        assert(exists|g: int| 0 <= g < i && (y == (edges@[g].from_kind@, edges@[g].from_id@) || y == (edges@[g].to_kind@, edges@[g].to_id@)));
                    }
                }
            }
        }
        i += 1;
    }
    let mut r: Vec<(String, String)> = Vec::new();
    let mut k: usize = 0;
    while k < out.len()
        invariant
            k <= out@.len(),
            r@.len() == k,
            forall|q: int| 0 <= q < k ==> (#[trigger] r@[q]).0@ == out@[q].0@ && r@[q].1@ == out@[q].1@,
        decreases out@.len() - k,
    {
        r.push((string_of(&out[k].0), string_of(&out[k].1)));
        k += 1;
    }
    proof {
        let ov = key_views(out@);
        assert forall|a: int, b: int| 0 <= a < b < r@.len() implies key_lt((#[trigger] r@[a].0@, r@[a].1@), (#[trigger] r@[b].0@, r@[b].1@)) by {
            assert(ov[a] == (r@[a].0@, r@[a].1@));
            assert(ov[b] == (r@[b].0@, r@[b].1@));
        }
        assert forall|y: (Seq<char>, Seq<char>)| (exists|q: int| 0 <= q < r@.len() && (r@[q].0@, r@[q].1@) == y) <==> #[trigger] graph_keys(kind@, id@, edges@).contains(y) by {
            if exists|q: int| 0 <= q < r@.len() && (r@[q].0@, r@[q].1@) == y {
                let q = choose|q: int| 0 <= q < r@.len() && (r@[q].0@, r@[q].1@) == y;
                assert(ov[q] == y);
                assert(ov.contains(y));
            }
            if graph_keys(kind@, id@, edges@).contains(y) {
                assert(ov.contains(y));
                let q = choose|q: int| 0 <= q < ov.len() && ov[q] == y;
                assert((r@[q].0@, r@[q].1@) == y);
            }
        }
    }
    r
}

/// The other ends of the edges touching `kind:id`: every endpoint of the
/// rows except the center itself.
pub open spec fn endpoint_key_set(rows: Seq<EdgeRow>, kind: Seq<char>, id: Seq<char>) -> Set<(Seq<char>, Seq<char>)> {
    Set::new(|k: (Seq<char>, Seq<char>)| k != (kind, id) && exists|i: int| 0 <= i < rows.len() && (
        k == (rows[i].in_kind@, rows[i].in_id@) || k == (rows[i].out_kind@, rows[i].out_id@)))
}

fn insert_unless_center(out: &mut Vec<(Vec<char>, Vec<char>)>, x: (Vec<char>, Vec<char>), kind: &Vec<char>, id: &Vec<char>)
    requires
        forall|i: int, j: int| 0 <= i < j < old(out)@.len() ==> key_lt(#[trigger] key_views(old(out)@)[i], #[trigger] key_views(old(out)@)[j]),
    ensures
        forall|i: int, j: int| 0 <= i < j < final(out)@.len() ==> key_lt(#[trigger] key_views(final(out)@)[i], #[trigger] key_views(final(out)@)[j]),
        forall|y: (Seq<char>, Seq<char>)| #[trigger] key_views(final(out)@).contains(y) <==> (key_views(old(out)@).contains(y) || (y == (x.0@, x.1@) && y != (kind@, id@))),
{
    if crate::text::chars_eq(&x.0, kind) && crate::text::chars_eq(&x.1, id) {
        return;
    }
    insert_key(out, x);
}

/// The other ends of the edges touching `kind:id`, each once, ordered by
/// kind and then id, without the center itself: the records whose names
/// are read for the related entities.
pub fn endpoint_keys(rows: &[EdgeRow], id: &str, kind: &str) -> (r: Vec<(String, String)>)
    ensures
        forall|i: int, j: int| 0 <= i < j < r@.len() ==> key_lt((#[trigger] r@[i].0@, r@[i].1@), (#[trigger] r@[j].0@, r@[j].1@)),
        forall|k: int| 0 <= k < r@.len() ==> (#[trigger] r@[k].0@, r@[k].1@) != (kind@, id@),
        forall|y: (Seq<char>, Seq<char>)| (exists|k: int| 0 <= k < r@.len() && (r@[k].0@, r@[k].1@) == y) <==> #[trigger] endpoint_key_set(rows@, kind@, id@).contains(y),
{
    let kc = chars_of(kind);
    let ic = chars_of(id);
    let mut out: Vec<(Vec<char>, Vec<char>)> = Vec::new();
    let mut i: usize = 0;
    while i < rows.len()
        invariant
            i <= rows@.len(),
            kc@ == kind@,
            ic@ == id@,
            forall|a: int, b: int| 0 <= a < b < out@.len() ==> key_lt(#[trigger] key_views(out@)[a], #[trigger] key_views(out@)[b]),
            forall|y: (Seq<char>, Seq<char>)| #[trigger] key_views(out@).contains(y) <==> (y != (kind@, id@) && exists|e: int| 0 <= e < i && (
                y == (rows@[e].in_kind@, rows@[e].in_id@) || y == (rows@[e].out_kind@, rows@[e].out_id@))),
        decreases rows@.len() - i,
    {
        let e = &rows[i];
        insert_unless_center(&mut out, (chars_of(e.in_kind.as_str()), chars_of(e.in_id.as_str())), &kc, &ic);
        insert_unless_center(&mut out, (chars_of(e.out_kind.as_str()), chars_of(e.out_id.as_str())), &kc, &ic);
        proof {
            assert forall|y: (Seq<char>, Seq<char>)| #[trigger] key_views(out@).contains(y) <==> (y != (kind@, id@) && exists|f: int| 0 <= f < i + 1 && (
                y == (rows@[f].in_kind@, rows@[f].in_id@) || y == (rows@[f].out_kind@, rows@[f].out_id@))) by {
                if exists|f: int| 0 <= f < i + 1 && (y == (rows@[f].in_kind@, rows@[f].in_id@) || y == (rows@[f].out_kind@, rows@[f].out_id@)) {
                    let f = choose|f: int| 0 <= f < i + 1 && (y == (rows@[f].in_kind@, rows@[f].in_id@) || y == (rows@[f].out_kind@, rows@[f].out_id@));
                    if f < i {
                        assert(exists|g: int| 0 <= g < i && (y == (rows@[g].in_kind@, rows@[g].in_id@) || y == (rows@[g].out_kind@, rows@[g].out_id@)));
                    }
                }
            }
        }
        i += 1;
    }
    let mut r: Vec<(String, String)> = Vec::new();
    let mut k: usize = 0;
    while k < out.len()
        invariant
            k <= out@.len(),
            r@.len() == k,
            forall|q: int| 0 <= q < k ==> (#[trigger] r@[q]).0@ == out@[q].0@ && r@[q].1@ == out@[q].1@,
        decreases out@.len() - k,
    {
        r.push((string_of(&out[k].0), string_of(&out[k].1)));
        k += 1;
    }
    proof {
        let ov = key_views(out@);
        assert forall|a: int, b: int| 0 <= a < b < r@.len() implies key_lt((#[trigger] r@[a].0@, r@[a].1@), (#[trigger] r@[b].0@, r@[b].1@)) by {
            assert(ov[a] == (r@[a].0@, r@[a].1@));
            assert(ov[b] == (r@[b].0@, r@[b].1@));
        }
        assert forall|q: int| 0 <= q < r@.len() implies (#[trigger] r@[q].0@, r@[q].1@) != (kind@, id@) by {
            assert(ov[q] == (r@[q].0@, r@[q].1@));
            assert(ov.contains(ov[q]));
        }
        assert forall|y: (Seq<char>, Seq<char>)| (exists|q: int| 0 <= q < r@.len() && (r@[q].0@, r@[q].1@) == y) <==> #[trigger] endpoint_key_set(rows@, kind@, id@).contains(y) by {
            if exists|q: int| 0 <= q < r@.len() && (r@[q].0@, r@[q].1@) == y {
                let q = choose|q: int| 0 <= q < r@.len() && (r@[q].0@, r@[q].1@) == y;
                assert(ov[q] == y);
                assert(ov.contains(y));
            }
            if endpoint_key_set(rows@, kind@, id@).contains(y) {
                assert(ov.contains(y));
                let q = choose|q: int| 0 <= q < ov.len() && ov[q] == y;
                assert((r@[q].0@, r@[q].1@) == y);
            }
        }
    }
    r
}

} // verus!
