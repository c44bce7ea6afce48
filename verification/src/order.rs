//! Lexicographic string order and a stable sort over total preorders.
use vstd::prelude::*;

verus! {

// ── Lexicographic order on characters ──────────────────────────────────────

/// `a <= b` in lexicographic order of code points (the order of `String`'s
/// `Ord`, since UTF-8 preserves code-point order).
pub open spec fn lex_le(a: Seq<char>, b: Seq<char>) -> bool
    decreases a.len(),
{
    if a.len() == 0 {
        true
    } else if b.len() == 0 {
        false
    } else if (a[0] as int) < (b[0] as int) {
        true
    } else if a[0] == b[0] {
        lex_le(a.drop_first(), b.drop_first())
    } else {
        false
    }
}

pub proof fn lemma_lex_total(a: Seq<char>, b: Seq<char>)
    ensures
        lex_le(a, b) || lex_le(b, a),
    decreases a.len(),
{
    if a.len() > 0 && b.len() > 0 {
        if a[0] == b[0] {
            lemma_lex_total(a.drop_first(), b.drop_first());
        } else {
            assert((a[0] as int) != (b[0] as int));
        }
    }
}

pub proof fn lemma_lex_trans(a: Seq<char>, b: Seq<char>, c: Seq<char>)
    requires
        lex_le(a, b),
        lex_le(b, c),
    ensures
        lex_le(a, c),
    decreases a.len(),
{
    if a.len() > 0 && b.len() > 0 && c.len() > 0 && a[0] == b[0] && b[0] == c[0] {
        lemma_lex_trans(a.drop_first(), b.drop_first(), c.drop_first());
    }
}

pub proof fn lemma_lex_antisym(a: Seq<char>, b: Seq<char>)
    requires
        lex_le(a, b),
        lex_le(b, a),
    ensures
        a == b,
    decreases a.len(),
{
    if a.len() > 0 && b.len() > 0 {
        lemma_lex_antisym(a.drop_first(), b.drop_first());
        assert(a =~= seq![a[0]] + a.drop_first());
        assert(b =~= seq![b[0]] + b.drop_first());
    }
}

/// Executable `lex_le`.
pub fn lex_le_chars(a: &Vec<char>, b: &Vec<char>) -> (r: bool)
    ensures
        r == lex_le(a@, b@),
{
    let mut i: usize = 0;
    assert(a@.skip(0) =~= a@);
    assert(b@.skip(0) =~= b@);
    while i < a.len() && i < b.len() && a[i] == b[i]
        invariant
            i <= a@.len(),
            i <= b@.len(),
            lex_le(a@, b@) == lex_le(a@.skip(i as int), b@.skip(i as int)),
        decreases a@.len() - i,
    {
        proof {
            assert(a@.skip(i as int).drop_first() =~= a@.skip(i + 1));
            assert(b@.skip(i as int).drop_first() =~= b@.skip(i + 1));
        }
        i += 1;
    }
    if i == a.len() {
        assert(a@.skip(i as int).len() == 0);
        true
    } else if i == b.len() {
        assert(b@.skip(i as int).len() == 0);
        false
    } else {
        assert(a@.skip(i as int)[0] == a@[i as int]);
        assert(b@.skip(i as int)[0] == b@[i as int]);
        a[i] < b[i]
    }
}

// ── Total preorders and stable sorting ─────────────────────────────────────

/// A total preorder on `Self` with an executable comparison.
pub trait TotalPreorder: Sized {
    /// `self` may come before `other`.
    spec fn before_eq(&self, other: &Self) -> bool;

    fn le(&self, other: &Self) -> (r: bool)
        ensures
            r == self.before_eq(other),
    ;

    proof fn lemma_total(a: &Self, b: &Self)
        ensures
            a.before_eq(b) || b.before_eq(a),
    ;

    proof fn lemma_trans(a: &Self, b: &Self, c: &Self)
        requires
            a.before_eq(b),
            b.before_eq(c),
        ensures
            a.before_eq(c),
    ;
}

/// Neither of `a`, `b` comes strictly before the other.
pub open spec fn equiv<T: TotalPreorder>(a: T, b: T) -> bool {
    a.before_eq(&b) && b.before_eq(&a)
}

/// `s` is ordered by the preorder.
pub open spec fn sorted_by_preorder<T: TotalPreorder>(s: Seq<T>) -> bool {
    forall|i: int, j: int| 0 <= i < j < s.len() ==> #[trigger] s[i].before_eq(&#[trigger] s[j])
}

/// The elements of `s` equivalent to `x`, in their order in `s`.
pub open spec fn class_of<T: TotalPreorder>(s: Seq<T>, x: T) -> Seq<T>
    decreases s.len(),
{
    if s.len() == 0 {
        Seq::empty()
    } else {
        let r = class_of(s.drop_last(), x);
        if equiv(s.last(), x) {
            r.push(s.last())
        } else {
            r
        }
    }
}

proof fn lemma_class_concat<T: TotalPreorder>(a: Seq<T>, b: Seq<T>, x: T)
    ensures
        class_of(a + b, x) == class_of(a, x) + class_of(b, x),
    decreases b.len(),
{
    if b.len() == 0 {
        assert(a + b =~= a);
        assert(class_of(a, x) + class_of(b, x) =~= class_of(a, x));
    } else {
        lemma_class_concat(a, b.drop_last(), x);
        assert((a + b).drop_last() =~= a + b.drop_last());
        assert((a + b).last() == b.last());
        if equiv(b.last(), x) {
            assert(class_of(a, x) + class_of(b, x) =~= (class_of(a, x) + class_of(b.drop_last(), x)).push(
                b.last(),
            ));
        }
    }
}

proof fn lemma_class_none<T: TotalPreorder>(s: Seq<T>, x: T)
    requires
        forall|k: int| 0 <= k < s.len() ==> !equiv(#[trigger] s[k], x),
    ensures
        class_of(s, x) == Seq::<T>::empty(),
    decreases s.len(),
{
    if s.len() > 0 {
        lemma_class_none(s.drop_last(), x);
    }
}

/// Every member of the class of `x` in `s` is an element of `s`.
proof fn lemma_class_sub<T: TotalPreorder>(s: Seq<T>, x: T)
    ensures
        forall|p: int| 0 <= p < class_of(s, x).len() ==> exists|i: int| 0 <= i < s.len() && s[i] == #[trigger] class_of(s, x)[p],
    decreases s.len(),
{
    if s.len() > 0 {
        let d = s.drop_last();
        lemma_class_sub(d, x);
        let c = class_of(s, x);
        let cd = class_of(d, x);
        assert forall|p: int| 0 <= p < c.len() implies exists|i: int| 0 <= i < s.len() && s[i] == #[trigger] c[p] by {
            if p < cd.len() {
                assert(c[p] == cd[p]);
                let i = choose|i: int| 0 <= i < d.len() && d[i] == #[trigger] cd[p];
                assert(s[i] == d[i]);
            } else {
                assert(c[p] == s[s.len() - 1]);
            }
        }
    }
}

/// Every element of `s` equivalent to `x` is in its class.
proof fn lemma_class_sup<T: TotalPreorder>(s: Seq<T>, x: T, i: int)
    requires
        0 <= i < s.len(),
        equiv(s[i], x),
    ensures
        exists|p: int| 0 <= p < class_of(s, x).len() && class_of(s, x)[p] == s[i],
    decreases s.len(),
{
    let d = s.drop_last();
    let c = class_of(s, x);
    let cd = class_of(d, x);
    if i < s.len() - 1 {
        assert(d[i] == s[i]);
        lemma_class_sup(d, x, i);
        let p = choose|p: int| 0 <= p < cd.len() && cd[p] == d[i];
        assert(c[p] == cd[p]);
    } else {
        assert(c[c.len() - 1] == s[i]);
    }
}

/// Two elements of `s` equivalent to `x` appear in its class in their order.
proof fn lemma_class_pair_in<T: TotalPreorder>(s: Seq<T>, x: T, a: int, b: int)
    requires
        0 <= a < b < s.len(),
        equiv(s[a], x),
        equiv(s[b], x),
    ensures
        exists|p: int, q: int| 0 <= p < q < class_of(s, x).len() && class_of(s, x)[p] == s[a] && class_of(s, x)[q] == s[b],
    decreases s.len(),
{
    let d = s.drop_last();
    let c = class_of(s, x);
    let cd = class_of(d, x);
    assert(d[a] == s[a]);
    if b < s.len() - 1 {
        assert(d[b] == s[b]);
        lemma_class_pair_in(d, x, a, b);
        let (p, q) = choose|p: int, q: int| 0 <= p < q < cd.len() && cd[p] == d[a] && cd[q] == d[b];
        assert(c[p] == cd[p] && c[q] == cd[q]);
    } else {
        lemma_class_sup(d, x, a);
        let p = choose|p: int| 0 <= p < cd.len() && cd[p] == d[a];
        assert(c[p] == cd[p]);
        assert(c[c.len() - 1] == s[b]);
    }
}

/// Two members of a class come from two elements of `s` in the same order.
proof fn lemma_class_pair_out<T: TotalPreorder>(s: Seq<T>, x: T, p: int, q: int)
    requires
        0 <= p < q < class_of(s, x).len(),
    ensures
        exists|a: int, b: int| 0 <= a < b < s.len() && s[a] == class_of(s, x)[p] && s[b] == class_of(s, x)[q],
    decreases s.len(),
{
    let d = s.drop_last();
    let c = class_of(s, x);
    let cd = class_of(d, x);
    lemma_class_sub(d, x);
    assert(c[p] == cd[p]);
    if q < cd.len() {
        assert(c[q] == cd[q]);
        lemma_class_pair_out(d, x, p, q);
        let (a, b) = choose|a: int, b: int| 0 <= a < b < d.len() && d[a] == cd[p] && d[b] == cd[q];
        assert(s[a] == d[a] && s[b] == d[b]);
    } else {
        let a = choose|a: int| 0 <= a < d.len() && d[a] == #[trigger] cd[p];
        assert(s[a] == d[a]);
        assert(c[q] == s[s.len() - 1]);
    }
}

/// An element of `s` is an element of any `t` with the same classes.
pub(crate) proof fn lemma_same_classes_member<T: TotalPreorder>(s: Seq<T>, t: Seq<T>, i: int)
    requires
        forall|x: T| #[trigger] class_of(s, x) == class_of(t, x),
        0 <= i < s.len(),
    ensures
        exists|j: int| 0 <= j < t.len() && t[j] == s[i],
{
    let x = s[i];
    T::lemma_total(&x, &x);
    lemma_class_sup(s, x, i);
    lemma_class_sub(t, x);
    assert(class_of(s, x) == class_of(t, x));
    let p = choose|p: int| 0 <= p < class_of(s, x).len() && class_of(s, x)[p] == s[i];
    assert(class_of(t, x)[p] == x);
}

/// Two equivalent elements of `s` appear in the same order in any `t` with
/// the same classes.
pub(crate) proof fn lemma_same_classes_pair<T: TotalPreorder>(s: Seq<T>, t: Seq<T>, a: int, b: int)
    requires
        forall|x: T| #[trigger] class_of(s, x) == class_of(t, x),
        0 <= a < b < s.len(),
        equiv(s[a], s[b]),
    ensures
        exists|c: int, d: int| 0 <= c < d < t.len() && t[c] == s[a] && t[d] == s[b],
{
    let x = s[a];
    T::lemma_total(&x, &x);
    let y = s[b];
    assert(equiv(y, x));
    lemma_class_pair_in(s, x, a, b);
    assert(class_of(s, x) == class_of(t, x));
    let (p, q) = choose|p: int, q: int| 0 <= p < q < class_of(s, x).len() && class_of(s, x)[p] == s[a] && class_of(s, x)[q] == s[b];
    lemma_class_pair_out(t, x, p, q);
}

proof fn lemma_equiv_trans<T: TotalPreorder>(a: T, b: T, c: T)
    requires
        equiv(a, b),
        equiv(b, c),
    ensures
        equiv(a, c),
{
    T::lemma_trans(&a, &b, &c);
    T::lemma_trans(&c, &b, &a);
}

/// Sorts `v` by the preorder, keeping equivalent elements in their original
/// order (a stable sort).
pub fn stable_sort<T: TotalPreorder>(v: Vec<T>) -> (r: Vec<T>)
    ensures
        sorted_by_preorder(r@),
        forall|x: T| #[trigger] class_of(r@, x) == class_of(v@, x),
        r@.len() == v@.len(),
{
    let ghost orig = v@;
    let n: usize = v.len();
    let mut v = v;
    // move the items into `src` in reverse, so that pop() yields them in order
    let mut src: Vec<T> = Vec::new();
    while v.len() > 0
        invariant
            src@.len() + v@.len() == orig.len(),
            forall|k: int| 0 <= k < v@.len() ==> #[trigger] v@[k] == orig[k],
            forall|k: int| 0 <= k < src@.len() ==> #[trigger] src@[k] == orig[orig.len() - 1 - k],
        decreases v@.len(),
    {
        let ghost before = v@;
        let item = v.pop().unwrap();
        proof {
            assert(item == orig[before.len() - 1]);
            assert forall|k: int| 0 <= k < v@.len() implies #[trigger] v@[k] == orig[k] by {
                assert(v@[k] == before[k]);
            }
        }
        src.push(item);
    }
    let mut out: Vec<T> = Vec::new();
    let mut taken: usize = 0;
    while src.len() > 0
        invariant
            taken + src@.len() == orig.len(),
            orig.len() == n,
            forall|k: int| 0 <= k < src@.len() ==> #[trigger] src@[k] == orig[orig.len() - 1 - k],
            sorted_by_preorder(out@),
            out@.len() == taken,
            forall|x: T| #[trigger] class_of(out@, x) == class_of(orig.take(taken as int), x),
        decreases src@.len(),
    {
        let ghost before_src = src@;
        let item = src.pop().unwrap();
        assert(item == orig[taken as int]);
        // find the first position whose element comes strictly after item
        let mut p: usize = 0;
        while p < out.len() && out[p].le(&item)
            invariant
                p <= out@.len(),
                forall|k: int| 0 <= k < p ==> (#[trigger] out@[k]).before_eq(&item),
            decreases out@.len() - p,
        {
            p += 1;
        }
        let ghost old_out = out@;
        out.insert(p, item);
        proof {
            assert(out@ =~= old_out.take(p as int) + seq![item] + old_out.skip(p as int));
            // everything after p comes strictly after item
            assert forall|k: int| p <= k < old_out.len() implies !(#[trigger] old_out[k]).before_eq(
                &item,
            ) by {
                if old_out[k].before_eq(&item) {
                    assert(old_out[p as int].before_eq(&old_out[k]));
                    T::lemma_trans(&old_out[p as int], &old_out[k], &item);
                }
            }
            // sortedness
            assert forall|i: int, j: int| 0 <= i < j < out@.len() implies #[trigger] out@[i].before_eq(
                &#[trigger] out@[j],
            ) by {
                if j < p {
                    assert(out@[i] == old_out[i] && out@[j] == old_out[j]);
                } else if j == p {
                    assert(out@[i] == old_out[i]);
                } else if i < p {
                    assert(out@[i] == old_out[i] && out@[j] == old_out[j - 1]);
                } else if i == p {
                    assert(out@[j] == old_out[j - 1]);
                    T::lemma_total(&item, &old_out[j - 1]);
                } else {
                    assert(out@[i] == old_out[i - 1] && out@[j] == old_out[j - 1]);
                }
            }
            // classes
            assert(orig.take(taken + 1) =~= orig.take(taken as int) + seq![item]);
            assert forall|x: T| #[trigger] class_of(out@, x) == class_of(orig.take(taken + 1), x) by {
                let a = old_out.take(p as int);
                let b = old_out.skip(p as int);
                lemma_class_concat(a + seq![item], b, x);
                lemma_class_concat(a, seq![item], x);
                lemma_class_concat(a, b, x);
                assert(a + b =~= old_out);
                lemma_class_concat(orig.take(taken as int), seq![item], x);
                assert(seq![item].drop_last() =~= Seq::<T>::empty());
                if equiv(item, x) {
                    assert forall|k: int| 0 <= k < b.len() implies !equiv(#[trigger] b[k], x) by {
                        assert(b[k] == old_out[p + k]);
                        if equiv(b[k], x) {
                            T::lemma_trans(&item, &x, &b[k]);
                            assert(!b[k].before_eq(&item));
                            lemma_equiv_trans(b[k], x, item);
                        }
                    }
                    lemma_class_none(b, x);
                    assert(class_of(a, x) + class_of(seq![item], x) + class_of(b, x) =~= class_of(
                        a,
                        x,
                    ) + class_of(seq![item], x));
                    assert(class_of(a, x) + class_of(b, x) =~= class_of(a, x));
                } else {
                    reveal_with_fuel(class_of, 2);
                    assert(class_of(seq![item], x) =~= Seq::<T>::empty());
                    assert(class_of(a, x) + Seq::<T>::empty() =~= class_of(a, x));
                    assert(class_of(orig.take(taken as int), x) + Seq::<T>::empty() =~= class_of(
                        orig.take(taken as int),
                        x,
                    ));
                }
            }
            assert forall|k: int| 0 <= k < src@.len() implies #[trigger] src@[k] == orig[orig.len() - 1
                - k] by {
                assert(src@[k] == before_src[k]);
            }
        }
        taken += 1;
    }
    assert(orig.take(taken as int) =~= orig);
    out
}

} // verus!
