//! Line-break offsets of a text, with the Unicode line-breaking rules
//! evaluated by ICU4X's line segmenter.

use vstd::prelude::*;
use vstd::string::StringSliceAdditionalSpecFns;
use crate::offsets::{break_offsets, lemma_break_offsets, offsets_from_breakpoints, strictly_increasing};

verus! {

/// The breakpoints that ICU4X's automatically configured line segmenter
/// finds in a text: UTF-8 byte offsets, a function of the text alone.
pub uninterp spec fn line_breakpoints_of(text: Seq<char>) -> Seq<usize>;

/// Relies on `icu_segmenter::LineSegmenter::new_auto` (compiled data) and
/// `LineSegmenter::segment_str`, whose documentation promises breakpoints at
/// 0 and at the string's length, or only at 0 for the empty string.
#[verifier::external_body]
fn segmenter_breakpoints(text: &str) -> (r: Vec<usize>)
    ensures
        r@ == line_breakpoints_of(text@),
        r@.len() >= 1,
        r@[0] == 0,
        r@.last() == text.spec_bytes().len(),
        text.spec_bytes().len() == 0 ==> r@.len() == 1,
{
    let segmenter = icu_segmenter::LineSegmenter::new_auto();
    segmenter.segment_str(text).collect()
}

/// The line-break offsets of `text`, in UTF-8 bytes.
pub open spec fn line_break_offsets(text: &str) -> Seq<u32> {
    break_offsets(line_breakpoints_of(text@), text.spec_bytes().len())
}

/// The byte offsets at which a line may break in `text`: strictly
/// increasing, each past the start, and always ending with the text's
/// length (`[0]` for the empty text).
pub fn line_break_points(text: &str) -> (r: Vec<u32>)
    requires
        text.spec_bytes().len() <= u32::MAX,
    ensures
        r@ == line_break_offsets(text),
        strictly_increasing(r@),
        r@.len() >= 1,
        r@.last() == text.spec_bytes().len(),
        text.spec_bytes().len() == 0 ==> r@ == seq![0u32],
{
    let raw = segmenter_breakpoints(text);
    let len = text.len();
    offsets_from_breakpoints(&raw, len)
}

/// Segmenting is a function of the text alone: two calls on texts with the
/// same characters give the same offsets, whatever other texts were
/// segmented in between or alongside.
pub proof fn lemma_offsets_depend_on_text_alone(a: &str, b: &str)
    requires
        a@ == b@,
    ensures
        line_break_offsets(a) == line_break_offsets(b),
{
}

/// For every text the offsets strictly increase and end with the text's
/// length; the empty text has the single offset 0.
pub proof fn lemma_line_break_offsets(text: &str)
    requires
        text.spec_bytes().len() <= u32::MAX,
    ensures
        strictly_increasing(line_break_offsets(text)),
        line_break_offsets(text).len() >= 1,
        line_break_offsets(text).last() == text.spec_bytes().len(),
        text.spec_bytes().len() == 0 ==> line_break_offsets(text) == seq![0u32],
{
    lemma_break_offsets(line_breakpoints_of(text@), text.spec_bytes().len());
}

} // verus!
