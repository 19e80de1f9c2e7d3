//! Picking the thumbnail of a RAW file to show.
use vstd::prelude::*;
use crate::raw::{area, preference, ranks_above, thumbnail_ranks_above, RawThumbnail};

verus! {

/// The position of the thumbnail chosen among the first `n`: the best ranked
/// one, and of several equally ranked ones the last (the choice of
/// `Iterator::max_by`).
pub open spec fn best_among(thumbs: Seq<RawThumbnail>, n: int) -> int
    decreases n,
{
    if n <= 1 {
        0
    } else {
        let b = best_among(thumbs, n - 1);
        if ranks_above(thumbs[b], thumbs[n - 1]) {
            b
        } else {
            n - 1
        }
    }
}

/// The pixel counts of all thumbnails fit in a `u32`.
pub open spec fn areas_fit(thumbs: Seq<RawThumbnail>) -> bool {
    forall|i: int| 0 <= i < thumbs.len() ==> area(#[trigger] thumbs[i]) <= u32::MAX
}

/// The position of the thumbnail to show: the one whose format is most
/// preferred, the largest among those, and the last of several equal ones;
/// `None` when there is no thumbnail.
pub fn best_thumbnail(thumbs: &Vec<RawThumbnail>) -> (r: Option<usize>)
    requires
        areas_fit(thumbs@),
    ensures
        thumbs@.len() == 0 ==> r is None,
        thumbs@.len() > 0 ==> (r matches Some(i) && i as int == best_among(thumbs@, thumbs@.len() as int)),
        r matches Some(i) ==> i < thumbs@.len() && forall|j: int|
            0 <= j < thumbs@.len() ==> preference((#[trigger] thumbs@[j]).kind) <= preference(
                thumbs@[i as int].kind,
            ) && (preference(thumbs@[j].kind) == preference(thumbs@[i as int].kind)
                ==> thumbs@[j].width * thumbs@[j].height <= thumbs@[i as int].width
                * thumbs@[i as int].height),
{
    if thumbs.len() == 0 {
        return None;
    }
    let mut best: usize = 0;
    let mut i: usize = 1;
    while i < thumbs.len()
        invariant
            1 <= i <= thumbs@.len(),
            areas_fit(thumbs@),
            best as int == best_among(thumbs@, i as int),
            best < i,
        decreases thumbs@.len() - i,
    {
        proof {
            lemma_best_among_bounds(thumbs@, i as int);
        }
        if !thumbnail_ranks_above(&thumbs[best], &thumbs[i]) {
            best = i;
        }
        i = i + 1;
    }
    proof {
        lemma_chosen_thumbnail_is_largest_of_its_format(thumbs@);
    }
    Some(best)
}

pub proof fn lemma_best_among_bounds(thumbs: Seq<RawThumbnail>, n: int)
    requires
        1 <= n,
    ensures
        0 <= best_among(thumbs, n) < n,
    decreases n,
{
    if n > 1 {
        lemma_best_among_bounds(thumbs, n - 1);
    }
}

/// The chosen thumbnail ranks at least as high as every other, and strictly
/// higher than every one after it.
pub proof fn lemma_best_thumbnail_is_maximal(thumbs: Seq<RawThumbnail>)
    requires
        thumbs.len() > 0,
    ensures
        0 <= best_among(thumbs, thumbs.len() as int) < thumbs.len(),
        forall|j: int|
            0 <= j < thumbs.len() ==> !ranks_above(
                #[trigger] thumbs[j],
                thumbs[best_among(thumbs, thumbs.len() as int)],
            ),
        forall|j: int|
            best_among(thumbs, thumbs.len() as int) < j < thumbs.len() ==> ranks_above(
                thumbs[best_among(thumbs, thumbs.len() as int)],
                #[trigger] thumbs[j],
            ),
{
    lemma_best_among_maximal(thumbs, thumbs.len() as int);
}

proof fn lemma_best_among_maximal(thumbs: Seq<RawThumbnail>, n: int)
    requires
        1 <= n <= thumbs.len(),
    ensures
        0 <= best_among(thumbs, n) < n,
        forall|j: int| 0 <= j < n ==> !ranks_above(#[trigger] thumbs[j], thumbs[best_among(thumbs, n)]),
        forall|j: int|
            best_among(thumbs, n) < j < n ==> ranks_above(thumbs[best_among(thumbs, n)], #[trigger] thumbs[j]),
    decreases n,
{
    if n > 1 {
        lemma_best_among_maximal(thumbs, n - 1);
    }
}

/// The thumbnail chosen is of the most preferred format present, and has
/// the largest pixel count (width times height) among the thumbnails of
/// that format.
pub proof fn lemma_chosen_thumbnail_is_largest_of_its_format(thumbs: Seq<RawThumbnail>)
    requires
        thumbs.len() > 0,
    ensures
        forall|j: int|
            0 <= j < thumbs.len() ==> preference((#[trigger] thumbs[j]).kind) <= preference(
                thumbs[best_among(thumbs, thumbs.len() as int)].kind,
            ) && (preference(thumbs[j].kind) == preference(
                thumbs[best_among(thumbs, thumbs.len() as int)].kind,
            ) ==> thumbs[j].width * thumbs[j].height <= thumbs[best_among(
                thumbs,
                thumbs.len() as int,
            )].width * thumbs[best_among(thumbs, thumbs.len() as int)].height),
{
    lemma_best_among_maximal(thumbs, thumbs.len() as int);
    let b = thumbs[best_among(thumbs, thumbs.len() as int)];
    assert forall|j: int| 0 <= j < thumbs.len() implies preference((#[trigger] thumbs[j]).kind)
        <= preference(b.kind) && (preference(thumbs[j].kind) == preference(b.kind)
        ==> thumbs[j].width * thumbs[j].height <= b.width * b.height) by {
        assert(!ranks_above(thumbs[j], b));
        let t = thumbs[j];
        assert(t.width * t.height == t.height * t.width) by (nonlinear_arith);
        assert(b.width * b.height == b.height * b.width) by (nonlinear_arith);
    }
}

} // verus!
