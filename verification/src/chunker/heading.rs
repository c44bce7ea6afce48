//! Section-heading detection for rulebook text.
use vstd::prelude::*;

use crate::regex_match::{regex_is_match, regex_matches};
use crate::text::{chars_eq, lemma_words_shape, chars_of, split_words, string_of, trim, trim_chars, words};
use crate::unicode::{all_ascii, is_uppercase, lowercase, to_lowercase, uppercase};

verus! {

/// Chapter/part headings: "Chapter 1", "Part Three", "Chapter 1: Title", ...
pub open spec fn chapter_pattern() -> Seq<char> {
    "(?i)^(chapter|part|section|appendix)\\s+\\S+"@
}

/// Numbered section headings: "1. Combat", "3.5 Skills", "10.2.1 Saving Throws".
pub open spec fn numbered_section_pattern() -> Seq<char> {
    "^\\d+(?:\\.\\d+)*[\\.\\)]?\\s+\\p{Lu}"@
}

/// ALL-CAPS lines.
pub open spec fn all_caps_pattern() -> Seq<char> {
    "^[\\p{Lu}\\s\\d'\\-\\.!?/:;]{2,}$"@
}

/// True when `s` ends with `.`, `!` or `?`.
pub open spec fn ends_with_terminal(s: Seq<char>) -> bool {
    s.len() > 0 && (s.last() == '.' || s.last() == '!' || s.last() == '?')
}

/// Short English stopwords allowed to stay lowercase inside a Title-Case
/// heading.
pub open spec fn is_stopword(w: Seq<char>) -> bool {
    ||| w == "a"@
    ||| w == "an"@
    ||| w == "the"@
    ||| w == "and"@
    ||| w == "or"@
    ||| w == "of"@
    ||| w == "in"@
    ||| w == "on"@
    ||| w == "at"@
    ||| w == "to"@
    ||| w == "for"@
    ||| w == "with"@
    ||| w == "by"@
    ||| w == "from"@
    ||| w == "into"@
    ||| w == "onto"@
    ||| w == "as"@
    ||| w == "but"@
    ||| w == "nor"@
    ||| w == "vs"@
}

/// A word that counts toward a Title-Case heading: not a stopword.
pub open spec fn significant(w: Seq<char>) -> bool {
    !is_stopword(lowercase(w))
}

/// Title-Case heading: 1–10 words, no terminal punctuation, every
/// significant word starts with an uppercase letter, at least one significant
/// word, and a single word has at least 3 characters.
pub open spec fn title_case_heading(line: Seq<char>) -> bool {
    let ws = words(line);
    &&& !ends_with_terminal(line)
    &&& 1 <= ws.len() <= 10
    &&& forall|k: int| 0 <= k < ws.len() && significant(#[trigger] ws[k]) ==> uppercase(ws[k][0])
    &&& exists|k: int| 0 <= k < ws.len() && significant(#[trigger] ws[k])
    &&& !(ws.len() == 1 && ws[0].len() < 3)
}

/// Heading heuristics, in priority order, on the trimmed line.
pub open spec fn heading(line: Seq<char>) -> bool {
    let t = trim(line);
    let n = words(t).len();
    if t.len() == 0 {
        false
    } else if ends_with_terminal(t) && n > 3 {
        false
    } else if regex_matches(chapter_pattern(), t) || regex_matches(numbered_section_pattern(), t) {
        true
    } else if 1 <= n <= 15 && regex_matches(all_caps_pattern(), t) {
        true
    } else {
        title_case_heading(t)
    }
}

fn ends_with_terminal_exec(s: &Vec<char>) -> (r: bool)
    ensures
        r == ends_with_terminal(s@),
{
    if s.len() == 0 {
        false
    } else {
        let c = s[s.len() - 1];
        c == '.' || c == '!' || c == '?'
    }
}

fn word_is(w: &Vec<char>, lit: &str) -> (r: bool)
    ensures
        r == (w@ == lit@),
{
    let l = chars_of(lit);
    chars_eq(w, &l)
}

fn is_stopword_exec(w: &Vec<char>) -> (r: bool)
    ensures
        r == is_stopword(w@),
{
    word_is(w, "a") || word_is(w, "an") || word_is(w, "the") || word_is(w, "and") || word_is(
        w,
        "or",
    ) || word_is(w, "of") || word_is(w, "in") || word_is(w, "on") || word_is(w, "at")
        || word_is(w, "to") || word_is(w, "for") || word_is(w, "with") || word_is(w, "by")
        || word_is(w, "from") || word_is(w, "into") || word_is(w, "onto") || word_is(w, "as")
        || word_is(w, "but") || word_is(w, "nor") || word_is(w, "vs")
}

fn is_significant(w: &Vec<char>) -> (r: bool)
    ensures
        r == significant(w@),
{
    let s = string_of(w);
    let lower = to_lowercase(s.as_str());
    let lc = chars_of(lower.as_str());
    !is_stopword_exec(&lc)
}

fn title_case_chars(line: &Vec<char>) -> (r: bool)
    ensures
        r == title_case_heading(line@),
{
    if ends_with_terminal_exec(line) {
        return false;
    }
    let ws = split_words(line);
    let ghost wv = ws@.map_values(|w: Vec<char>| w@);
    assert(wv == words(line@));
    proof {
        lemma_words_shape(line@);
    }
    if ws.len() == 0 || ws.len() > 10 {
        return false;
    }
    let mut significant_count: usize = 0;
    let mut k: usize = 0;
    while k < ws.len()
        invariant
            k <= ws@.len(),
            wv == ws@.map_values(|w: Vec<char>| w@),
            wv == words(line@),
            forall|m: int| 0 <= m < wv.len() ==> #[trigger] wv[m].len() > 0,
            significant_count <= k,
            forall|m: int| 0 <= m < k && significant(#[trigger] wv[m]) ==> uppercase(wv[m][0]),
            (significant_count > 0) == (exists|m: int| 0 <= m < k && significant(#[trigger] wv[m])),
        decreases ws@.len() - k,
    {
        assert(wv[k as int] == ws@[k as int]@);
        if is_significant(&ws[k]) {
            if ws[k].len() == 0 {
                return false;
            }
            if !is_uppercase(ws[k][0]) {
                assert(significant(wv[k as int]) && !uppercase(wv[k as int][0]));
                return false;
            }
            significant_count += 1;
        }
        k += 1;
    }
    if significant_count == 0 {
        return false;
    }
    if ws.len() == 1 && ws[0].len() < 3 {
        assert(wv[0] == ws@[0]@);
        return false;
    }
    proof {
        if ws@.len() == 1 {
            assert(wv[0] == ws@[0]@);
        }
    }
    true
}

/// True if `line` looks like a Title-Case section heading: 1–10 words, no
/// terminal `.`/`!`/`?`, every non-stopword starts with an uppercase letter,
/// at least one such word, and a single word is at least 3 characters long.
pub fn is_title_case_heading(line: &str) -> (r: bool)
    ensures
        r == title_case_heading(line@),
{
    let chars = chars_of(line);
    title_case_chars(&chars)
}

/// `heading` on a line given as characters.
pub fn is_heading_chars(line: &Vec<char>) -> (r: bool)
    ensures
        r == heading(line@),
{
    let t = trim_chars(line);
    if t.len() == 0 {
        return false;
    }
    let n = split_words(&t).len();
    if ends_with_terminal_exec(&t) && n > 3 {
        return false;
    }
    let ts = string_of(&t);
    if regex_is_match("(?i)^(chapter|part|section|appendix)\\s+\\S+", ts.as_str()) {
        return true;
    }
    if regex_is_match("^\\d+(?:\\.\\d+)*[\\.\\)]?\\s+\\p{Lu}", ts.as_str()) {
        return true;
    }
    if 1 <= n && n <= 15 && regex_is_match("^[\\p{Lu}\\s\\d'\\-\\.!?/:;]{2,}$", ts.as_str()) {
        return true;
    }
    title_case_chars(&t)
}

/// Determine whether a line is a section heading.
///
/// Heuristics (in priority order), on the trimmed line:
/// 1. Matches `Chapter X` / `Part X` / `Section X` / `Appendix X`
/// 2. Matches a numbered-section pattern like `3. Combat`
/// 3. Is a short ALL-CAPS line (1–15 words)
/// 4. Is a short Title-Case line
///
/// A line ending in `.`, `!` or `?` with more than 3 words is never a heading.
pub fn is_heading(line: &str) -> (r: bool)
    ensures
        r == heading(line@),
{
    let chars = chars_of(line);
    is_heading_chars(&chars)
}


// ── Laws ───────────────────────────────────────────────────────────────────

/// The short English words that a Title-Case heading may keep in lowercase.
pub open spec fn english_stopwords() -> Seq<Seq<char>> {
    seq!["a"@, "an"@, "the"@, "and"@, "or"@, "of"@, "in"@, "on"@, "at"@, "to"@, "for"@, "with"@, "by"@, "from"@, "into"@, "onto"@, "as"@, "but"@, "nor"@, "vs"@]
}

/// `c` is an ASCII capital `A-Z`.
pub open spec fn ascii_capital(c: char) -> bool {
    'A' <= c && c <= 'Z'
}

/// `w` is made of ASCII letters only.
pub open spec fn ascii_letters(w: Seq<char>) -> bool {
    forall|k: int| 0 <= k < w.len() ==> ('A' <= #[trigger] w[k] && w[k] <= 'Z') || ('a' <= w[k] && w[k] <= 'z')
}

proof fn lemma_lowercase_ascii(w: Seq<char>)
    requires
        ascii_letters(w),
    ensures
        lowercase(w).len() == w.len(),
        (forall|k: int| 0 <= k < w.len() ==> 'a' <= #[trigger] w[k] && w[k] <= 'z') ==> lowercase(w) == w,
{
    assert(all_ascii(w));
    if forall|k: int| 0 <= k < w.len() ==> 'a' <= #[trigger] w[k] && w[k] <= 'z' {
        assert(lowercase(w) =~= w);
    }
}

proof fn lemma_english_stopwords_lowercase()
    ensures
        forall|i: int| 0 <= i < english_stopwords().len() ==> {
            let w = #[trigger] english_stopwords()[i];
            &&& ascii_letters(w)
            &&& (forall|k: int| 0 <= k < w.len() ==> 'a' <= #[trigger] w[k] && w[k] <= 'z')
            &&& 0 < w.len() <= 4
            &&& lowercase(w) == w
            &&& is_stopword(w)
        },
{
    reveal_strlit("a");
    reveal_strlit("an");
    reveal_strlit("the");
    reveal_strlit("and");
    reveal_strlit("or");
    reveal_strlit("of");
    reveal_strlit("in");
    reveal_strlit("on");
    reveal_strlit("at");
    reveal_strlit("to");
    reveal_strlit("for");
    reveal_strlit("with");
    reveal_strlit("by");
    reveal_strlit("from");
    reveal_strlit("into");
    reveal_strlit("onto");
    reveal_strlit("as");
    reveal_strlit("but");
    reveal_strlit("nor");
    reveal_strlit("vs");
    assert forall|i: int| 0 <= i < english_stopwords().len() implies {
        let w = #[trigger] english_stopwords()[i];
        &&& ascii_letters(w)
        &&& (forall|k: int| 0 <= k < w.len() ==> 'a' <= #[trigger] w[k] && w[k] <= 'z')
        &&& 0 < w.len() <= 4
        &&& lowercase(w) == w
        &&& is_stopword(w)
    } by {
        let w = english_stopwords()[i];
        assert(ascii_letters(w));
        lemma_lowercase_ascii(w);
    }
}

/// Every English stopword may stay lowercase in a Title-Case heading: a
/// trimmed line of one to ten words without terminal punctuation, each word
/// either starting with a capital `A-Z` or being a stopword in lowercase,
/// with at least one capitalised word of five or more ASCII letters, is a
/// heading (so "Fighting with Two Weapons" is one).
pub proof fn lemma_stopwords_stay_lowercase(line: Seq<char>)
    requires
        trim(line) == line,
        !ends_with_terminal(line),
        1 <= words(line).len() <= 10,
        forall|k: int|
            0 <= k < words(line).len() ==> ascii_capital(#[trigger] words(line)[k][0]) || english_stopwords().contains(words(line)[k]),
        exists|k: int|
            0 <= k < words(line).len() && ascii_capital(#[trigger] words(line)[k][0]) && ascii_letters(words(line)[k])
                && words(line)[k].len() >= 5,
    ensures
        heading(line),
{
    let ws = words(line);
    lemma_words_shape(line);
    lemma_english_stopwords_lowercase();
    reveal_strlit("a");
    reveal_strlit("an");
    reveal_strlit("the");
    reveal_strlit("and");
    reveal_strlit("or");
    reveal_strlit("of");
    reveal_strlit("in");
    reveal_strlit("on");
    reveal_strlit("at");
    reveal_strlit("to");
    reveal_strlit("for");
    reveal_strlit("with");
    reveal_strlit("by");
    reveal_strlit("from");
    reveal_strlit("into");
    reveal_strlit("onto");
    reveal_strlit("as");
    reveal_strlit("but");
    reveal_strlit("nor");
    reveal_strlit("vs");
    assert(line.len() > 0);
    assert forall|k: int| 0 <= k < ws.len() && significant(#[trigger] ws[k]) implies uppercase(ws[k][0]) by {
        if !ascii_capital(ws[k][0]) {
            let i = choose|i: int| 0 <= i < english_stopwords().len() && english_stopwords()[i] == ws[k];
            assert(is_stopword(lowercase(english_stopwords()[i])));
        }
    }
    let k = choose|k: int|
        0 <= k < ws.len() && ascii_capital(#[trigger] ws[k][0]) && ascii_letters(ws[k]) && ws[k].len() >= 5;
    lemma_lowercase_ascii(ws[k]);
    assert(significant(ws[k]));
    assert(title_case_heading(line));
}


/// Only the English stopwords may stay lowercase: a line that has a word of
/// lowercase ASCII letters outside the stopword list is not a Title-Case
/// heading.
pub proof fn lemma_other_lowercase_words_break_title_case(line: Seq<char>, k: int)
    requires
        0 <= k < words(line).len(),
        forall|m: int| 0 <= m < words(line)[k].len() ==> 'a' <= #[trigger] words(line)[k][m] && words(line)[k][m] <= 'z',
        !english_stopwords().contains(words(line)[k]),
    ensures
        !title_case_heading(line),
{
    let ws = words(line);
    let w = ws[k];
    lemma_words_shape(line);
    assert(ascii_letters(w));
    lemma_lowercase_ascii(w);
    assert(english_stopwords()[0] == "a"@);
    assert(english_stopwords()[1] == "an"@);
    assert(english_stopwords()[2] == "the"@);
    assert(english_stopwords()[3] == "and"@);
    assert(english_stopwords()[4] == "or"@);
    assert(english_stopwords()[5] == "of"@);
    assert(english_stopwords()[6] == "in"@);
    assert(english_stopwords()[7] == "on"@);
    assert(english_stopwords()[8] == "at"@);
    assert(english_stopwords()[9] == "to"@);
    assert(english_stopwords()[10] == "for"@);
    assert(english_stopwords()[11] == "with"@);
    assert(english_stopwords()[12] == "by"@);
    assert(english_stopwords()[13] == "from"@);
    assert(english_stopwords()[14] == "into"@);
    assert(english_stopwords()[15] == "onto"@);
    assert(english_stopwords()[16] == "as"@);
    assert(english_stopwords()[17] == "but"@);
    assert(english_stopwords()[18] == "nor"@);
    assert(english_stopwords()[19] == "vs"@);
    if is_stopword(w) {
        assert(english_stopwords().contains(w));
    }
    assert(significant(ws[k]));
    assert(!uppercase(ws[k][0]));
}

} // verus!
