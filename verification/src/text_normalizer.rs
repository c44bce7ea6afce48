//! Repairs PDF extraction artifacts before chunking.
//!
//! Three repairs in order:
//! 1. Soft-hyphen line joins: `power-\nful` → `powerful`.
//! 2. Single newlines inside paragraphs → space; double newlines preserved.
//! 3. Collapse runs of horizontal whitespace.
use vstd::prelude::*;

use crate::text::{all_space, lemma_blank_iff_all_space, chars_of, lemma_trim_end, lemma_trim_start, lemma_trim_start_noop, trim_end, trim_start, is_blank, is_space, is_space_char, string_of, trim, trim_chars};
use crate::unicode::{alphabetic, is_alphabetic};

verus! {

// ── Step 1: soft-hyphen joins ──────────────────────────────────────────────

/// True when `s[i..i + 2]` is a `-\n` between two alphabetic characters.
pub open spec fn hyphen_break_at(s: Seq<char>, i: int) -> bool {
    &&& 0 < i
    &&& i + 2 < s.len()
    &&& s[i] == '-'
    &&& s[i + 1] == '\n'
    &&& alphabetic(s[i - 1])
    &&& alphabetic(s[i + 2])
}

/// Step 1 applied to `s[i..]`: every hyphenated line break is dropped.
pub open spec fn join_hyphens_from(s: Seq<char>, i: int) -> Seq<char>
    decreases s.len() - i,
{
    if i < 0 || i >= s.len() {
        Seq::empty()
    } else if hyphen_break_at(s, i) {
        join_hyphens_from(s, i + 2)
    } else {
        seq![s[i]] + join_hyphens_from(s, i + 1)
    }
}

// ── Step 2: newline runs ───────────────────────────────────────────────────

/// End of the run of `'\n'` that starts at `i`.
pub open spec fn newline_run_end(s: Seq<char>, i: int) -> int
    decreases s.len() - i,
{
    if 0 <= i < s.len() && s[i] == '\n' {
        newline_run_end(s, i + 1)
    } else {
        i
    }
}

/// Step 2 applied to `s[i..]`: a single newline becomes a space, a run of two
/// or more becomes exactly one paragraph break `"\n\n"`.
pub open spec fn fold_newlines_from(s: Seq<char>, i: int) -> Seq<char>
    decreases s.len() - i,
{
    if i < 0 || i >= s.len() {
        Seq::empty()
    } else if s[i] == '\n' {
        let j = newline_run_end(s, i);
        if j <= i || j > s.len() {
            Seq::empty()
        } else if j - i >= 2 {
            seq!['\n', '\n'] + fold_newlines_from(s, j)
        } else {
            seq![' '] + fold_newlines_from(s, j)
        }
    } else {
        seq![s[i]] + fold_newlines_from(s, i + 1)
    }
}

// ── Step 3: horizontal whitespace ──────────────────────────────────────────

/// `out` without its trailing `' '` characters.
pub open spec fn strip_trailing_spaces(out: Seq<char>) -> Seq<char>
    decreases out.len(),
{
    if out.len() > 0 && out.last() == ' ' {
        strip_trailing_spaces(out.drop_last())
    } else {
        out
    }
}

/// True when `s` ends with a paragraph break (two newlines): a further
/// newline, after a line that held only whitespace, is dropped so that a
/// break stays two newlines.
pub open spec fn ends_paragraph(s: Seq<char>) -> bool {
    s.len() >= 2 && s[s.len() - 1] == '\n' && s[s.len() - 2] == '\n'
}

/// One step of the step-3 scan: the output so far, whether the last input
/// character was horizontal whitespace, and the next input character.
pub open spec fn collapse_step(out: Seq<char>, last_was_space: bool, c: char) -> (Seq<char>, bool) {
    if c == '\n' {
        let st = strip_trailing_spaces(out);
        if ends_paragraph(st) {
            (st, false)
        } else {
            (st.push('\n'), false)
        }
    } else if is_space_char(c) {
        if !last_was_space {
            (out.push(' '), true)
        } else {
            (out, true)
        }
    } else {
        (out.push(c), false)
    }
}

/// State of the step-3 scan after reading all of `s`.
pub open spec fn collapse_state(s: Seq<char>) -> (Seq<char>, bool)
    decreases s.len(),
{
    if s.len() == 0 {
        (Seq::empty(), false)
    } else {
        let prev = collapse_state(s.drop_last());
        collapse_step(prev.0, prev.1, s.last())
    }
}

/// The full repair of `text`.
pub open spec fn normalized(text: Seq<char>) -> Seq<char> {
    if trim(text).len() == 0 {
        Seq::empty()
    } else {
        trim(collapse_state(fold_newlines_from(join_hyphens_from(text, 0), 0)).0)
    }
}

// ── Executable steps ───────────────────────────────────────────────────────

fn join_hyphens(s: &Vec<char>) -> (r: Vec<char>)
    ensures
        r@ == join_hyphens_from(s@, 0),
{
    let mut out: Vec<char> = Vec::new();
    let mut i: usize = 0;
    let n = s.len();
    while i < n
        invariant
            n == s@.len(),
            i <= n,
            join_hyphens_from(s@, 0) == out@ + join_hyphens_from(s@, i as int),
        decreases n - i,
    {
        let brk = s[i] == '-' && i + 1 < n && s[i + 1] == '\n' && i > 0 && is_alphabetic(s[i - 1])
            && i + 2 < n && is_alphabetic(s[i + 2]);
        if brk {
            i += 2;
        } else {
            let ghost before = out@;
            out.push(s[i]);
            assert(before + join_hyphens_from(s@, i as int) =~= out@ + join_hyphens_from(
                s@,
                i + 1,
            ));
            i += 1;
        }
    }
    assert(join_hyphens_from(s@, i as int) =~= Seq::<char>::empty());
    assert(out@ + Seq::<char>::empty() =~= out@);
    out
}

fn newline_end(s: &Vec<char>, i: usize) -> (r: usize)
    requires
        i <= s@.len(),
    ensures
        r as int == newline_run_end(s@, i as int),
        i <= r <= s@.len(),
        i < s@.len() && s@[i as int] == '\n' ==> r > i,
{
    let mut j = i;
    while j < s.len() && s[j] == '\n'
        invariant
            i <= j <= s@.len(),
            newline_run_end(s@, i as int) == newline_run_end(s@, j as int),
        decreases s@.len() - j,
    {
        j += 1;
    }
    j
}

fn fold_newlines(s: &Vec<char>) -> (r: Vec<char>)
    ensures
        r@ == fold_newlines_from(s@, 0),
{
    let mut out: Vec<char> = Vec::new();
    let mut i: usize = 0;
    let n = s.len();
    while i < n
        invariant
            n == s@.len(),
            i <= n,
            fold_newlines_from(s@, 0) == out@ + fold_newlines_from(s@, i as int),
        decreases n - i,
    {
        let ghost before = out@;
        if s[i] == '\n' {
            let j = newline_end(s, i);
            if j - i >= 2 {
                out.push('\n');
                out.push('\n');
                assert(before + fold_newlines_from(s@, i as int) =~= out@ + fold_newlines_from(
                    s@,
                    j as int,
                ));
            } else {
                out.push(' ');
                assert(before + fold_newlines_from(s@, i as int) =~= out@ + fold_newlines_from(
                    s@,
                    j as int,
                ));
            }
            i = j;
        } else {
            out.push(s[i]);
            assert(before + fold_newlines_from(s@, i as int) =~= out@ + fold_newlines_from(
                s@,
                i + 1,
            ));
            i += 1;
        }
    }
    assert(out@ + fold_newlines_from(s@, i as int) =~= out@);
    out
}

fn collapse_spaces(s: &Vec<char>) -> (r: Vec<char>)
    ensures
        r@ == collapse_state(s@).0,
{
    let mut out: Vec<char> = Vec::new();
    let mut last_was_space = false;
    let mut i: usize = 0;
    while i < s.len()
        invariant
            i <= s@.len(),
            collapse_state(s@.take(i as int)) == (out@, last_was_space),
        decreases s@.len() - i,
    {
        let c = s[i];
        proof {
            assert(s@.take(i + 1).drop_last() =~= s@.take(i as int));
        }
        if c == '\n' {
            while out.len() > 0 && out[out.len() - 1] == ' '
                invariant
                    strip_trailing_spaces(out@) == strip_trailing_spaces(
                        collapse_state(s@.take(i as int)).0,
                    ),
                decreases out@.len(),
            {
                let ghost before = out@;
                out.pop();
                assert(before.drop_last() =~= out@);
            }
            let n = out.len();
            if !(n >= 2 && out[n - 1] == '\n' && out[n - 2] == '\n') {
                out.push(c);
            }
            last_was_space = false;
        } else if is_space(c) {
            if !last_was_space {
                out.push(' ');
            }
            last_was_space = true;
        } else {
            out.push(c);
            last_was_space = false;
        }
        i += 1;
    }
    assert(s@.take(i as int) =~= s@);
    out
}

/// Repairs PDF text: joins hyphenated line breaks, turns single newlines into
/// spaces while keeping paragraph breaks, collapses horizontal whitespace, and
/// trims the result.
pub fn normalize(text: &str) -> (r: String)
    ensures
        r@ == normalized(text@),
{
    let chars = chars_of(text);
    if is_blank(&chars) {
        return String::new();
    }
    let step1 = join_hyphens(&chars);
    let step2 = fold_newlines(&step1);
    let step3 = collapse_spaces(&step2);
    let out = trim_chars(&step3);
    string_of(&out)
}

// ── Idempotence ────────────────────────────────────────────────────────────

/// Every newline of `s` has a newline right before or right after it.
pub open spec fn paired_newlines(s: Seq<char>) -> bool {
    forall|k: int|
        0 <= k < s.len() && #[trigger] s[k] == '\n' ==> (k > 0 && s[k - 1] == '\n') || (k + 1
            < s.len() && s[k + 1] == '\n')
}

/// True when `s` holds three newlines in a row.
pub open spec fn has_triple_newline(s: Seq<char>) -> bool {
    exists|k: int| 0 <= k && k + 2 < s.len() && #[trigger] s[k] == '\n' && s[k + 1] == '\n' && s[k + 2] == '\n'
}

/// The only whitespace of `s` is `' '` and `'\n'`, and a space is followed by
/// neither a space nor a newline.
pub open spec fn tidy_spaces(s: Seq<char>) -> bool {
    &&& forall|k: int|
        0 <= k < s.len() ==> #[trigger] s[k] == ' ' || s[k] == '\n' || !is_space_char(s[k])
    &&& forall|k: int|
        0 <= k && k + 1 < s.len() && #[trigger] s[k] == ' ' ==> s[k + 1] != ' ' && s[k + 1] != '\n'
}

proof fn lemma_paired_concat(a: Seq<char>, b: Seq<char>)
    requires
        paired_newlines(a),
        paired_newlines(b),
    ensures
        paired_newlines(a + b),
{
    let c = a + b;
    assert forall|k: int| 0 <= k < c.len() && #[trigger] c[k] == '\n' implies (k > 0 && c[k - 1]
        == '\n') || (k + 1 < c.len() && c[k + 1] == '\n') by {
        if k < a.len() {
            assert(a[k] == '\n');
        } else {
            assert(b[k - a.len()] == '\n');
        }
    }
}

proof fn lemma_fold_paired(s: Seq<char>, i: int)
    ensures
        paired_newlines(fold_newlines_from(s, i)),
    decreases s.len() - i,
{
    if i < 0 || i >= s.len() {
    } else if s[i] == '\n' {
        let j = newline_run_end(s, i);
        if j <= i || j > s.len() {
        } else {
            lemma_fold_paired(s, j);
            if j - i >= 2 {
                let p = seq!['\n', '\n'];
                assert(paired_newlines(p)) by {
                    assert forall|k: int| 0 <= k < p.len() && #[trigger] p[k] == '\n' implies (k
                        > 0 && p[k - 1] == '\n') || (k + 1 < p.len() && p[k + 1] == '\n') by {
                        if k == 0 {
                            assert(p[1] == '\n');
                        } else {
                            assert(p[0] == '\n');
                        }
                    }
                }
                lemma_paired_concat(p, fold_newlines_from(s, j));
            } else {
                lemma_paired_concat(seq![' '], fold_newlines_from(s, j));
            }
        }
    } else {
        lemma_fold_paired(s, i + 1);
        lemma_paired_concat(seq![s[i]], fold_newlines_from(s, i + 1));
    }
}

proof fn lemma_strip(out: Seq<char>)
    ensures
        strip_trailing_spaces(out) == out.take(strip_trailing_spaces(out).len() as int),
        strip_trailing_spaces(out).len() <= out.len(),
        forall|k: int|
            strip_trailing_spaces(out).len() <= k < out.len() ==> #[trigger] out[k] == ' ',
        strip_trailing_spaces(out).len() > 0 ==> strip_trailing_spaces(out).last() != ' ',
    decreases out.len(),
{
    if out.len() > 0 && out.last() == ' ' {
        lemma_strip(out.drop_last());
        let t = strip_trailing_spaces(out.drop_last());
        assert(out.drop_last().take(t.len() as int) =~= out.take(t.len() as int));
        assert forall|k: int| t.len() <= k < out.len() implies #[trigger] out[k] == ' ' by {
            if k < out.len() - 1 {
                assert(out[k] == out.drop_last()[k]);
            }
        }
    } else {
        assert(out.take(out.len() as int) =~= out);
    }
}

/// Invariant of the step-3 scan over `z.take(i)` when `z` has paired newlines.
spec fn collapse_inv(z: Seq<char>, i: int, out: Seq<char>, lws: bool) -> bool {
    &&& tidy_spaces(out)
    &&& lws == (out.len() > 0 && out.last() == ' ')
    &&& forall|k: int|
        0 <= k < out.len() && #[trigger] out[k] == '\n' ==> (k > 0 && out[k - 1] == '\n') || (k
            + 1 < out.len() && out[k + 1] == '\n') || (k == out.len() - 1 && i < z.len() && z[i]
            == '\n')
    &&& (i > 0 && z[i - 1] == '\n' ==> out.len() > 0 && out.last() == '\n')
    &&& !has_triple_newline(out)
}

proof fn lemma_collapse_inv(z: Seq<char>, i: int)
    requires
        paired_newlines(z),
        0 <= i <= z.len(),
    ensures
        collapse_inv(z, i, collapse_state(z.take(i)).0, collapse_state(z.take(i)).1),
    decreases i,
{
    if i == 0 {
        assert(z.take(0).len() == 0);
    } else {
        lemma_collapse_inv(z, i - 1);
        assert(z.take(i).drop_last() =~= z.take(i - 1));
        let prev = collapse_state(z.take(i - 1));
        let out = prev.0;
        let lws = prev.1;
        let c = z[i - 1];
        let next = collapse_state(z.take(i));
        assert(next == collapse_step(out, lws, c));
        let o2 = next.0;
        if c == '\n' {
            lemma_strip(out);
            let st = strip_trailing_spaces(out);
            let m = st.len() as int;
            assert forall|k: int| 0 <= k < m implies #[trigger] st[k] == out[k] by {}
            if ends_paragraph(st) {
                assert(o2 == st);
                assert forall|k: int| 0 <= k < o2.len() implies #[trigger] o2[k] == ' ' || o2[k]
                    == '\n' || !is_space_char(o2[k]) by {
                    assert(o2[k] == out[k]);
                }
                assert forall|k: int| 0 <= k && k + 1 < o2.len() && #[trigger] o2[k] == ' ' implies o2[k
                    + 1] != ' ' && o2[k + 1] != '\n' by {
                    assert(o2[k] == out[k]);
                    assert(o2[k + 1] == out[k + 1]);
                }
                assert forall|k: int| 0 <= k < o2.len() && #[trigger] o2[k] == '\n' implies (k > 0
                    && o2[k - 1] == '\n') || (k + 1 < o2.len() && o2[k + 1] == '\n') || (k == o2.len()
                    - 1 && i < z.len() && z[i] == '\n') by {
                    if k == m - 1 {
                        assert(o2[k - 1] == '\n');
                    } else {
                        assert(o2[k] == out[k]);
                        assert(o2[k + 1] == out[k + 1]);
                        if k + 1 == m - 1 {
                        } else if k + 1 < out.len() && out[k + 1] == '\n' {
                        } else if k > 0 && out[k - 1] == '\n' {
                            assert(o2[k - 1] == out[k - 1]);
                        }
                    }
                }
                if has_triple_newline(o2) {
                    let k = choose|k: int| 0 <= k && k + 2 < o2.len() && #[trigger] o2[k] == '\n' && o2[k + 1] == '\n' && o2[k + 2] == '\n';
                    assert(out[k] == '\n' && out[k + 1] == '\n' && out[k + 2] == '\n');
                    assert(has_triple_newline(out));
                }
            } else {
                assert(o2 == st.push('\n'));
                // tidiness
                assert forall|k: int| 0 <= k < o2.len() implies #[trigger] o2[k] == ' ' || o2[k]
                    == '\n' || !is_space_char(o2[k]) by {
                    if k < m {
                        assert(o2[k] == out[k]);
                    }
                }
                assert forall|k: int| 0 <= k && k + 1 < o2.len() && #[trigger] o2[k] == ' ' implies o2[k
                    + 1] != ' ' && o2[k + 1] != '\n' by {
                    assert(o2[k] == out[k]);
                    if k + 1 < m {
                        assert(o2[k + 1] == out[k + 1]);
                    } else {
                        assert(st.last() == out[k]);
                    }
                }
                // pairing
                assert forall|k: int| 0 <= k < o2.len() && #[trigger] o2[k] == '\n' implies (k > 0
                    && o2[k - 1] == '\n') || (k + 1 < o2.len() && o2[k + 1] == '\n') || (k == o2.len()
                    - 1 && i < z.len() && z[i] == '\n') by {
                    if k < m {
                        assert(o2[k] == out[k]);
                        assert(out[k] == '\n');
                        if k + 1 < out.len() && out[k + 1] == '\n' {
                            if k + 1 >= m {
                                assert(out[k + 1] == ' ');
                            }
                            assert(o2[k + 1] == out[k + 1]);
                        } else if k > 0 && out[k - 1] == '\n' {
                            assert(o2[k - 1] == out[k - 1]);
                        } else {
                            assert(k == out.len() - 1);
                            assert(o2[k + 1] == '\n');
                        }
                    } else {
                        assert(k == m);
                        if i < z.len() && z[i] == '\n' {
                        } else {
                            assert(z[i - 1] == '\n');
                            assert(i - 1 > 0 && z[i - 2] == '\n');
                            assert(out.last() == '\n');
                            assert(m == out.len());
                            assert(o2[k - 1] == out.last());
                        }
                    }
                }
                if has_triple_newline(o2) {
                    let k = choose|k: int| 0 <= k && k + 2 < o2.len() && #[trigger] o2[k] == '\n' && o2[k + 1] == '\n' && o2[k + 2] == '\n';
                    if k + 2 == m {
                        assert(st[m - 1] == '\n' && st[m - 2] == '\n');
                        assert(ends_paragraph(st));
                    } else {
                        assert(out[k] == '\n' && out[k + 1] == '\n' && out[k + 2] == '\n');
                        assert(has_triple_newline(out));
                    }
                }
            }
        } else if is_space_char(c) {
            if !lws {
                assert(o2 == out.push(' '));
                assert forall|k: int| 0 <= k < o2.len() implies #[trigger] o2[k] == ' ' || o2[k]
                    == '\n' || !is_space_char(o2[k]) by {
                    if k < out.len() {
                        assert(o2[k] == out[k]);
                    }
                }
                assert forall|k: int| 0 <= k && k + 1 < o2.len() && #[trigger] o2[k] == ' ' implies o2[k
                    + 1] != ' ' && o2[k + 1] != '\n' by {
                    assert(o2[k] == out[k]);
                    if k + 1 < out.len() {
                        assert(o2[k + 1] == out[k + 1]);
                    }
                }
                assert forall|k: int| 0 <= k < o2.len() && #[trigger] o2[k] == '\n' implies (k > 0
                    && o2[k - 1] == '\n') || (k + 1 < o2.len() && o2[k + 1] == '\n') || (k
                    == o2.len() - 1 && i < z.len() && z[i] == '\n') by {
                    assert(o2[k] == out[k]);
                    if k > 0 {
                        assert(o2[k - 1] == out[k - 1]);
                    }
                    if k + 1 < out.len() {
                        assert(o2[k + 1] == out[k + 1]);
                    }
                }
                if has_triple_newline(o2) {
                    let k = choose|k: int| 0 <= k && k + 2 < o2.len() && #[trigger] o2[k] == '\n' && o2[k + 1] == '\n' && o2[k + 2] == '\n';
                    assert(out[k] == '\n' && out[k + 1] == '\n' && out[k + 2] == '\n');
                }
            } else {
                assert(o2 == out);
            }
        } else {
            assert(o2 == out.push(c));
            assert forall|k: int| 0 <= k < o2.len() implies #[trigger] o2[k] == ' ' || o2[k]
                == '\n' || !is_space_char(o2[k]) by {
                if k < out.len() {
                    assert(o2[k] == out[k]);
                }
            }
            assert forall|k: int| 0 <= k && k + 1 < o2.len() && #[trigger] o2[k] == ' ' implies o2[k
                + 1] != ' ' && o2[k + 1] != '\n' by {
                assert(o2[k] == out[k]);
                if k + 1 < out.len() {
                    assert(o2[k + 1] == out[k + 1]);
                }
            }
            assert forall|k: int| 0 <= k < o2.len() && #[trigger] o2[k] == '\n' implies (k > 0
                && o2[k - 1] == '\n') || (k + 1 < o2.len() && o2[k + 1] == '\n') || (k == o2.len()
                - 1 && i < z.len() && z[i] == '\n') by {
                assert(o2[k] == out[k]);
                if k > 0 {
                    assert(o2[k - 1] == out[k - 1]);
                }
                if k + 1 < out.len() {
                    assert(o2[k + 1] == out[k + 1]);
                }
            }
            if has_triple_newline(o2) {
                let k = choose|k: int| 0 <= k && k + 2 < o2.len() && #[trigger] o2[k] == '\n' && o2[k + 1] == '\n' && o2[k + 2] == '\n';
                assert(out[k] == '\n' && out[k + 1] == '\n' && out[k + 2] == '\n');
            }
        }
    }
}

/// Shape of a repaired text: tidy spaces (only `' '` and `'\n'`, no space
/// before a space or a newline), newlines in pairs and never three in a
/// row, no whitespace at either end.
pub open spec fn repaired_shape(y: Seq<char>) -> bool {
    &&& tidy_spaces(y)
    &&& paired_newlines(y)
    &&& !has_triple_newline(y)
    &&& (y.len() > 0 ==> !is_space_char(y[0]) && !is_space_char(y.last()))
}

/// A repaired text has the repaired shape.
pub proof fn lemma_normalized_shape(text: Seq<char>)
    ensures
        repaired_shape(normalized(text)),
{
    if trim(text).len() != 0 {
        let z = fold_newlines_from(join_hyphens_from(text, 0), 0);
        lemma_fold_paired(join_hyphens_from(text, 0), 0);
        lemma_collapse_inv(z, z.len() as int);
        assert(z.take(z.len() as int) =~= z);
        let w = collapse_state(z).0;
        lemma_trim_start(w);
        let t = trim_start(w);
        lemma_trim_end(t);
        let y = trim_end(t);
        let a = w.len() - t.len();
        assert(y == w.subrange(a, a + y.len())) by {
            assert(t.take(y.len() as int) =~= w.subrange(a, a + y.len()));
        }
        assert(y == normalized(text));
        assert forall|k: int| 0 <= k < y.len() implies #[trigger] y[k] == ' ' || y[k] == '\n'
            || !is_space_char(y[k]) by {
            assert(y[k] == w[a + k]);
        }
        assert forall|k: int| 0 <= k && k + 1 < y.len() && #[trigger] y[k] == ' ' implies y[k + 1]
            != ' ' && y[k + 1] != '\n' by {
            assert(y[k] == w[a + k]);
            assert(y[k + 1] == w[a + k + 1]);
        }
        if y.len() > 0 {
            assert(y[0] == t[0]);
        }
        assert forall|k: int| 0 <= k < y.len() && #[trigger] y[k] == '\n' implies (k > 0 && y[k
            - 1] == '\n') || (k + 1 < y.len() && y[k + 1] == '\n') by {
            assert(y[k] == w[a + k]);
            assert(w[a + k] == '\n');
            if k == 0 {
                assert(!is_space_char(y[0]));
            }
            if k == y.len() - 1 {
                assert(!is_space_char(y.last()));
            }
            assert(y[k - 1] == w[a + k - 1]);
            assert(y[k + 1] == w[a + k + 1]);
        }
        if has_triple_newline(y) {
            let k = choose|k: int| 0 <= k && k + 2 < y.len() && #[trigger] y[k] == '\n' && y[k + 1] == '\n' && y[k + 2] == '\n';
            assert(y[k] == w[a + k] && y[k + 1] == w[a + k + 1] && y[k + 2] == w[a + k + 2]);
            assert(w[a + k] == '\n' && w[a + k + 1] == '\n' && w[a + k + 2] == '\n');
        }
    }
}

proof fn lemma_join_hyphens_noop(y: Seq<char>, i: int)
    requires
        paired_newlines(y),
        0 <= i <= y.len(),
    ensures
        join_hyphens_from(y, i) == y.skip(i),
    decreases y.len() - i,
{
    if i >= y.len() {
        assert(y.skip(i).len() == 0);
    } else {
        if hyphen_break_at(y, i) {
            assert(y[i + 1] == '\n');
            assert(y[i + 2] == '\n');
            assert(false);
        }
        lemma_join_hyphens_noop(y, i + 1);
        assert(seq![y[i]] + y.skip(i + 1) =~= y.skip(i));
    }
}

proof fn lemma_fold_newlines_noop(y: Seq<char>, i: int)
    requires
        paired_newlines(y),
        !has_triple_newline(y),
        0 <= i <= y.len(),
        i == 0 || i == y.len() || y[i - 1] != '\n' || y[i] != '\n',
    ensures
        fold_newlines_from(y, i) == y.skip(i),
    decreases y.len() - i,
{
    if i >= y.len() {
        assert(y.skip(i).len() == 0);
    } else if y[i] == '\n' {
        assert(i + 1 < y.len() && y[i + 1] == '\n');
        if i + 2 < y.len() && y[i + 2] == '\n' {
            assert(has_triple_newline(y));
        }
        assert(newline_run_end(y, i + 2) == i + 2);
        assert(newline_run_end(y, i + 1) == i + 2);
        assert(newline_run_end(y, i) == i + 2);
        lemma_fold_newlines_noop(y, i + 2);
        assert(seq!['\n', '\n'] + y.skip(i + 2) =~= y.skip(i));
    } else {
        lemma_fold_newlines_noop(y, i + 1);
        assert(seq![y[i]] + y.skip(i + 1) =~= y.skip(i));
    }
}

proof fn lemma_collapse_noop(y: Seq<char>, i: int)
    requires
        tidy_spaces(y),
        !has_triple_newline(y),
        0 <= i <= y.len(),
    ensures
        collapse_state(y.take(i)) == (y.take(i), i > 0 && y[i - 1] == ' '),
    decreases i,
{
    if i == 0 {
        assert(y.take(0) =~= Seq::<char>::empty());
    } else {
        lemma_collapse_noop(y, i - 1);
        assert(y.take(i).drop_last() =~= y.take(i - 1));
        let c = y[i - 1];
        if c == '\n' {
            if i >= 2 {
                assert(y[i - 2] != ' ');
            }
            assert(strip_trailing_spaces(y.take(i - 1)) == y.take(i - 1));
            if ends_paragraph(y.take(i - 1)) {
                assert(y[i - 3] == '\n' && y[i - 2] == '\n' && y[i - 1] == '\n');
                assert(has_triple_newline(y));
            }
        } else if is_space_char(c) {
            assert(c == ' ');
            if i >= 2 {
                assert(y[i - 2] != ' ');
            }
        }
        assert(y.take(i - 1).push(c) =~= y.take(i));
    }
}

/// Repairing a repaired text changes nothing.
pub proof fn lemma_normalize_idempotent(text: Seq<char>)
    ensures
        normalized(normalized(text)) == normalized(text),
{
    let y = normalized(text);
    lemma_normalized_shape(text);
    if y.len() > 0 {
        lemma_trim_start_noop(y);
        lemma_trim_end(y);
        assert(trim_end(y) == y);
        assert(trim(y) == y);
        lemma_join_hyphens_noop(y, 0);
        assert(y.skip(0) =~= y);
        lemma_fold_newlines_noop(y, 0);
        lemma_collapse_noop(y, y.len() as int);
        assert(y.take(y.len() as int) =~= y);
    } else {
        assert(trim(y).len() == 0);
    }
}

// ── Blank texts ────────────────────────────────────────────────────────────

/// No whitespace character has the `Alphabetic` property.
proof fn lemma_no_alphabetic_space(c: char)
    ensures
        is_space_char(c) ==> !alphabetic(c),
{
}

proof fn lemma_join_keeps_solid(s: Seq<char>, i: int, k: int)
    requires
        0 <= i <= k < s.len(),
        !is_space_char(s[k]),
        !hyphen_break_at(s, k),
    ensures
        !all_space(join_hyphens_from(s, i)),
    decreases s.len() - i,
{
    let r = join_hyphens_from(s, i);
    if i == k {
        assert(r[0] == s[k]);
    } else if hyphen_break_at(s, i) {
        assert(k != i + 1);
        lemma_join_keeps_solid(s, i + 2, k);
    } else {
        lemma_join_keeps_solid(s, i + 1, k);
        let q = join_hyphens_from(s, i + 1);
        let m = choose|m: int| 0 <= m < q.len() && !is_space_char(#[trigger] q[m]);
        assert(r[m + 1] == q[m]);
    }
}

proof fn lemma_solid_not_break(s: Seq<char>, k: int)
    requires
        0 <= k < s.len(),
        !is_space_char(s[k]),
    ensures
        exists|j: int| 0 <= j <= k && !is_space_char(#[trigger] s[j]) && !hyphen_break_at(s, j),
    decreases k,
{
    if hyphen_break_at(s, k) {
        assert(alphabetic(s[k - 1]));
        lemma_no_alphabetic_space(s[k - 1]);
        assert(!is_space_char(s[k - 1]));
        lemma_solid_not_break(s, k - 1);
    } else {
        assert(!is_space_char(s[k]) && !hyphen_break_at(s, k));
    }
}

proof fn lemma_run_end(s: Seq<char>, i: int)
    requires
        0 <= i < s.len(),
        s[i] == '\n',
    ensures
        i < newline_run_end(s, i) <= s.len(),
        forall|m: int| i <= m < newline_run_end(s, i) ==> #[trigger] s[m] == '\n',
    decreases s.len() - i,
{
    assert(newline_run_end(s, i) == newline_run_end(s, i + 1));
    if i + 1 < s.len() && s[i + 1] == '\n' {
        lemma_run_end(s, i + 1);
    } else {
        assert(newline_run_end(s, i + 1) == i + 1);
    }
}

proof fn lemma_fold_keeps_solid(s: Seq<char>, i: int, k: int)
    requires
        0 <= i <= k < s.len(),
        !is_space_char(s[k]),
    ensures
        !all_space(fold_newlines_from(s, i)),
    decreases s.len() - i,
{
    let r = fold_newlines_from(s, i);
    if s[i] == '\n' {
        lemma_run_end(s, i);
        let j = newline_run_end(s, i);
        if k < j {
            assert(s[k] == '\n');
        }
        lemma_fold_keeps_solid(s, j, k);
        let q = fold_newlines_from(s, j);
        let m = choose|m: int| 0 <= m < q.len() && !is_space_char(#[trigger] q[m]);
        if j - i >= 2 {
            assert(r[m + 2] == q[m]);
        } else {
            assert(r[m + 1] == q[m]);
        }
    } else if i == k {
        assert(r[0] == s[k]);
    } else {
        lemma_fold_keeps_solid(s, i + 1, k);
        let q = fold_newlines_from(s, i + 1);
        let m = choose|m: int| 0 <= m < q.len() && !is_space_char(#[trigger] q[m]);
        assert(r[m + 1] == q[m]);
    }
}

proof fn lemma_collapse_keeps_solid(s: Seq<char>)
    requires
        !all_space(s),
    ensures
        !all_space(collapse_state(s).0),
    decreases s.len(),
{
    let d = s.drop_last();
    let prev = collapse_state(d);
    let out = prev.0;
    let c = s.last();
    let o2 = collapse_state(s).0;
    assert(collapse_state(s) == collapse_step(out, prev.1, c));
    if !all_space(d) {
        lemma_collapse_keeps_solid(d);
        let m = choose|m: int| 0 <= m < out.len() && !is_space_char(#[trigger] out[m]);
        if c == '\n' {
            lemma_strip(out);
            let st = strip_trailing_spaces(out);
            assert(m < st.len()) by {
                if m >= st.len() {
                    assert(out[m] == ' ');
                }
            }
            assert(st[m] == out[m]);
            assert(o2[m] == st[m]);
        } else {
            assert(o2[m] == out[m]);
        }
    } else {
        let k = choose|k: int| 0 <= k < s.len() && !is_space_char(#[trigger] s[k]);
        if k < s.len() - 1 {
            assert(d[k] == s[k]);
        }
        assert(k == s.len() - 1);
        assert(o2 == out.push(c));
        assert(o2[out.len() as int] == c);
    }
}

/// A repaired text is empty exactly when the text is blank.
pub proof fn lemma_normalized_empty_iff_blank(text: Seq<char>)
    ensures
        normalized(text).len() == 0 <==> trim(text).len() == 0,
{
    lemma_blank_iff_all_space(text);
    if trim(text).len() != 0 {
        let k0 = choose|k: int| 0 <= k < text.len() && !is_space_char(#[trigger] text[k]);
        lemma_solid_not_break(text, k0);
        let k = choose|j: int| 0 <= j <= k0 && !is_space_char(#[trigger] text[j]) && !hyphen_break_at(text, j);
        lemma_join_keeps_solid(text, 0, k);
        let y1 = join_hyphens_from(text, 0);
        let m1 = choose|m: int| 0 <= m < y1.len() && !is_space_char(#[trigger] y1[m]);
        lemma_fold_keeps_solid(y1, 0, m1);
        let y2 = fold_newlines_from(y1, 0);
        lemma_collapse_keeps_solid(y2);
        lemma_blank_iff_all_space(collapse_state(y2).0);
    }
}

} // verus!
