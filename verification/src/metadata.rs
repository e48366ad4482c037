//! Metadata records, their evaluation against score filters, and the search
//! for the record of a path in a list.

use crate::score::{satisfies, score_rank, Score, ScoreFilter, ScoreFilterView};
use vstd::prelude::*;

verus! {

/// What is known of one image: its path and, where the source gave one, its
/// score.
#[derive(Debug)]
pub struct ImageMeta {
    pub path: String,
    pub score: Option<Score>,
}

/// What a record means: the characters of its path and the rank of its
/// score, absent when the record has no score or one that is not a number.
pub struct ImageMetaView {
    pub path: Seq<char>,
    pub score: Option<int>,
}

impl View for ImageMeta {
    type V = ImageMetaView;

    open spec fn view(&self) -> ImageMetaView {
        ImageMetaView { path: self.path@, score: score_rank(self.score) }
    }
}

impl DeepView for ImageMeta {
    type V = ImageMetaView;

    open spec fn deep_view(&self) -> ImageMetaView {
        self@
    }
}

impl Clone for ImageMeta {
    fn clone(&self) -> (copy: Self)
        ensures
            copy == *self,
    {
        ImageMeta { path: self.path.clone(), score: self.score }
    }
}

/// Whether a record passes a score filter.
pub open spec fn passes(meta: ImageMetaView, filter: ScoreFilterView) -> bool {
    satisfies(meta.score, filter)
}

/// Whether a record passes every filter of a list.
pub open spec fn passes_all(meta: ImageMetaView, filters: Seq<ScoreFilterView>) -> bool {
    forall|k: int| 0 <= k < filters.len() ==> passes(meta, #[trigger] filters[k])
}

/// Whether some record of a list has the given path.
pub open spec fn has_path(metas: Seq<ImageMetaView>, path: Seq<char>) -> bool {
    exists|i: int| 0 <= i < metas.len() && (#[trigger] metas[i]).path == path
}

/// Whether `i` is the place of the first record with the given path.
pub open spec fn is_first_with_path(metas: Seq<ImageMetaView>, path: Seq<char>, i: int) -> bool {
    &&& 0 <= i < metas.len()
    &&& metas[i].path == path
    &&& forall|j: int| 0 <= j < i ==> (#[trigger] metas[j]).path != path
}

/// Whether `i` is the place of the last record with the given path.
pub open spec fn is_last_with_path(metas: Seq<ImageMetaView>, path: Seq<char>, i: int) -> bool {
    &&& 0 <= i < metas.len()
    &&& metas[i].path == path
    &&& forall|j: int| i < j < metas.len() ==> (#[trigger] metas[j]).path != path
}

/// Whether no two records of a list share a path.
pub open spec fn distinct_paths(metas: Seq<ImageMetaView>) -> bool {
    forall|i: int, j: int|
        0 <= i < j < metas.len() ==> (#[trigger] metas[i]).path != (#[trigger] metas[j]).path
}

/// Decides whether a record passes a score filter: whether it has a score,
/// score and threshold are numbers, and the filter's comparison holds with
/// the score on the left and the threshold on the right.
pub fn eval(meta: &ImageMeta, filter: &ScoreFilter) -> (passed: bool)
    ensures
        passed == passes(meta@, filter@),
{
    filter.admits(meta.score)
}

/// Finds the first record of a list whose path equals `path`.
pub fn find_meta<'a>(metas: &'a Vec<ImageMeta>, path: &String) -> (found: Option<&'a ImageMeta>)
    ensures
        (match found {
            Some(meta) => exists|i: int|
                is_first_with_path(metas.deep_view(), path@, i) && *meta == #[trigger] metas[i],
            None => !has_path(metas.deep_view(), path@),
        }),
{
    let mut i: usize = 0;
    while i < metas.len()
        invariant
            i <= metas.len(),
            forall|j: int| 0 <= j < i ==> (#[trigger] metas.deep_view()[j]).path != path@,
        decreases metas.len() - i,
    {
        if metas[i].path == *path {
            assert(is_first_with_path(metas.deep_view(), path@, i as int));
            return Some(&metas[i]);
        }
        i += 1;
    }
    None
}

} // verus!
