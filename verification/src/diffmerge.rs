//! The three-way text merge primitive.

use vstd::prelude::*;

verus! {

/// What the line-based three-way merge produces for an ancestor and two
/// descendants: the cleanly merged text when the edits do not overlap,
/// otherwise the text with both sides' lines under conflict markers. It
/// is a function of the three byte strings alone.
pub uninterp spec fn merge3_of(base: Seq<u8>, ours: Seq<u8>, theirs: Seq<u8>) -> Seq<u8>;

/// Relies on `diffy::merge_bytes`: a deterministic line-based three-way
/// merge of byte texts whose result depends on the three inputs alone.
/// The merged bytes are kept whether or not conflicts were marked, so
/// neither side's edit is ever dropped.
#[verifier::external_body]
pub(crate) fn merge_text(base: &Vec<u8>, ours: &Vec<u8>, theirs: &Vec<u8>) -> (r: Vec<u8>)
    ensures
        r@ == merge3_of(base@, ours@, theirs@),
{
    match diffy::merge_bytes(base, ours, theirs) {
        Ok(merged) => merged,
        Err(conflicted) => conflicted,
    }
}

} // verus!
