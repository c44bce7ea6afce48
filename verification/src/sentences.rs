//! Sentence segmentation through the `unicode-segmentation` crate.
use unicode_segmentation::UnicodeSegmentation;
use vstd::prelude::*;

verus! {

/// The pieces `split_sentence_bounds` cuts `text` into (UAX #29 sentence
/// boundaries).
pub uninterp spec fn sentence_pieces(text: Seq<char>) -> Seq<Seq<char>>;

/// `UnicodeSegmentation::split_sentence_bounds` from `unicode-segmentation`.
/// Claims that the pieces are the named segmentation of `text`; as the
/// crate documents, that their concatenation is `text` itself; and, by the
/// rule that a sentence always breaks after a line break (UAX #29 rule SB4,
/// which the crate applies before every rule that could join), that a
/// `'\n'` is the last character of the piece it is in.
#[verifier::external_body]
pub fn split_sentence_bounds(text: &str) -> (r: Vec<String>)
    ensures
        r@.map_values(|p: String| p@) == sentence_pieces(text@),
        r@.map_values(|p: String| p@).flatten() == text@,
        forall|j: int, i: int| 0 <= j < r@.len() && 0 <= i < r@[j]@.len() - 1 ==> #[trigger] r@[j]@[i] != '\n',
{
    let mut out = Vec::new();
    for piece in text.split_sentence_bounds() {
        out.push(piece.to_string());
    }
    out
}

} // verus!
