//! Locating JPEG previews embedded in RAW files.
//!
//! Many RAW formats carry one or more complete JPEG images (a start-of-image
//! marker `FF D8` up to an end-of-image marker `FF D9`). The scan below walks
//! the file from front to back, collects those segments, and picks the
//! longest one as the preview.
use vstd::prelude::*;

verus! {

/// Second byte of the JPEG start-of-image marker `FF D8`.
pub const SOI: u8 = 0xd8;

/// Second byte of the JPEG end-of-image marker `FF D9`.
pub const EOI: u8 = 0xd9;

/// A two-byte marker `FF second` starts at position `i` of `b`.
pub open spec fn marker_at(b: Seq<u8>, i: int, second: u8) -> bool {
    0 <= i && i + 1 < b.len() && b[i] == 0xffu8 && b[i + 1] == second
}

/// The first position at or after `from` where the marker `FF second` starts.
pub open spec fn find_marker(b: Seq<u8>, from: int, second: u8) -> Option<int>
    decreases b.len() - from,
{
    if from < 0 || from + 1 >= b.len() {
        None
    } else if marker_at(b, from, second) {
        Some(from)
    } else {
        find_marker(b, from + 1, second)
    }
}

/// What `find_marker` finds is a marker, at or after `from`, and nothing
/// before it (from `from` on) is one.
pub proof fn lemma_find_marker(b: Seq<u8>, from: int, second: u8)
    requires
        0 <= from,
    ensures
        match find_marker(b, from, second) {
            Some(i) => from <= i && marker_at(b, i, second) && forall|j: int|
                from <= j < i ==> !marker_at(b, j, second),
            None => forall|j: int| from <= j ==> !marker_at(b, j, second),
        },
    decreases b.len() - from,
{
    if from + 1 >= b.len() {
    } else if marker_at(b, from, second) {
    } else {
        lemma_find_marker(b, from + 1, second);
    }
}

/// The JPEG segments met by a front-to-back scan starting at `offset`, as
/// half-open ranges `(start, end)`: each starts at the next `FF D8` and ends
/// just after the first `FF D9` that follows it; the next search starts at
/// `end`. `None` when a start marker has no end marker after it.
pub open spec fn segments_from(b: Seq<u8>, offset: int) -> Option<Seq<(int, int)>>
    decreases b.len() - offset,
{
    if offset < 0 {
        None
    } else {
        match find_marker(b, offset, SOI) {
            None => Some(Seq::empty()),
            Some(s) => match find_marker(b, s + 2, EOI) {
                None => None,
                Some(e) => {
                    proof {
                        lemma_find_marker(b, offset, SOI);
                        lemma_find_marker(b, s + 2, EOI);
                    }
                    match segments_from(b, e + 2) {
                        None => None,
                        Some(rest) => Some(seq![(s, e + 2)] + rest),
                    }
                },
            },
        }
    }
}

/// Length of a half-open range.
pub open spec fn seg_len(r: (int, int)) -> int {
    r.1 - r.0
}

/// The longest range of `segs`; among several of that length, the first.
pub open spec fn first_longest(segs: Seq<(int, int)>) -> Option<(int, int)>
    decreases segs.len(),
{
    if segs.len() == 0 {
        None
    } else {
        let x = segs.last();
        match first_longest(segs.drop_last()) {
            None => Some(x),
            Some(p) => if seg_len(x) > seg_len(p) {
                Some(x)
            } else {
                Some(p)
            },
        }
    }
}

/// The range of the embedded preview of `b`: the longest segment of the scan
/// from the start of `b`, or `None` when the scan meets an unterminated
/// segment or finds none.
pub open spec fn embedded_jpeg_range(b: Seq<u8>) -> Option<(int, int)> {
    match segments_from(b, 0) {
        None => None,
        Some(segs) => first_longest(segs),
    }
}

/// Prepends `done` to a scan result.
pub open spec fn prepend(done: Seq<(int, int)>, rest: Option<Seq<(int, int)>>) -> Option<
    Seq<(int, int)>,
> {
    match rest {
        None => None,
        Some(r) => Some(done + r),
    }
}

/// `first_longest` is one of the ranges, and none of them is longer; every
/// range before it is strictly shorter.
pub proof fn lemma_first_longest(segs: Seq<(int, int)>)
    ensures
        segs.len() == 0 <==> first_longest(segs) is None,
        first_longest(segs) matches Some(r) ==> {
            &&& exists|k: int| #![trigger segs[k]] 0 <= k < segs.len() && segs[k] == r && (forall|
                j: int,
            | 0 <= j < k ==> seg_len(#[trigger] segs[j]) < seg_len(r))
            &&& forall|j: int| 0 <= j < segs.len() ==> seg_len(#[trigger] segs[j]) <= seg_len(r)
        },
    decreases segs.len(),
{
    if segs.len() > 0 {
        let init = segs.drop_last();
        lemma_first_longest(init);
        let x = segs.last();
        match first_longest(init) {
            None => {
                assert(segs[segs.len() - 1] == x);
            },
            Some(p) => {
                let k0 = choose|k: int|
                    #![trigger init[k]]
                    0 <= k < init.len() && init[k] == p && (forall|j: int|
                        0 <= j < k ==> seg_len(#[trigger] init[j]) < seg_len(p));
                if seg_len(x) > seg_len(p) {
                    assert(segs[segs.len() - 1] == x);
                    assert forall|j: int| 0 <= j < segs.len() - 1 implies seg_len(
                        #[trigger] segs[j],
                    ) < seg_len(x) by {
                        assert(segs[j] == init[j]);
                    }
                } else {
                    assert(segs[k0] == init[k0]);
                    assert forall|j: int| 0 <= j < k0 implies seg_len(#[trigger] segs[j]) < seg_len(
                        p,
                    ) by {
                        assert(segs[j] == init[j]);
                    }
                    assert forall|j: int| 0 <= j < segs.len() implies seg_len(#[trigger] segs[j])
                        <= seg_len(p) by {
                        if j < segs.len() - 1 {
                            assert(segs[j] == init[j]);
                        }
                    }
                }
            },
        }
    }
}

/// Every segment of a scan from `offset` starts with `FF D8` at or after
/// `offset`, ends with `FF D9`, lies inside `b`, and segments do not overlap.
pub proof fn lemma_segments_well_formed(b: Seq<u8>, offset: int)
    requires
        0 <= offset,
    ensures
        segments_from(b, offset) matches Some(segs) ==> forall|k: int|
            0 <= k < segs.len() ==> {
                let r = #[trigger] segs[k];
                &&& offset <= r.0
                &&& r.0 + 4 <= r.1 <= b.len()
                &&& marker_at(b, r.0, SOI)
                &&& marker_at(b, r.1 - 2, EOI)
                &&& k + 1 < segs.len() ==> r.1 <= segs[k + 1].0
            },
    decreases b.len() - offset,
{
    lemma_find_marker(b, offset, SOI);
    match find_marker(b, offset, SOI) {
        None => {},
        Some(s) => {
            lemma_find_marker(b, s + 2, EOI);
            match find_marker(b, s + 2, EOI) {
                None => {},
                Some(e) => {
                    lemma_segments_well_formed(b, e + 2);
                    match segments_from(b, e + 2) {
                        None => {},
                        Some(rest) => {
                            let segs = seq![(s, e + 2)] + rest;
                            assert(segments_from(b, offset) == Some(segs));
                            assert forall|k: int| 1 <= k < segs.len() implies segs[k] == rest[k
                                - 1] by {}
                            if rest.len() > 0 {
                                assert(segs[1] == rest[0]);
                            }
                        },
                    }
                },
            }
        },
    }
}

/// The first position at or after `from` where `FF second` starts.
fn find_marker_exec(bytes: &[u8], from: usize, second: u8) -> (r: Option<usize>)
    requires
        from <= bytes@.len(),
    ensures
        match r {
            None => find_marker(bytes@, from as int, second) is None,
            Some(i) => find_marker(bytes@, from as int, second) == Some(i as int),
        },
{
    let len = bytes.len();
    let mut i = from;
    while i < len && len - i >= 2
        invariant
            from <= i <= len,
            len == bytes@.len(),
            find_marker(bytes@, from as int, second) == find_marker(bytes@, i as int, second),
        decreases len - i,
    {
        if bytes[i] == 0xff && bytes[i + 1] == second {
            return Some(i);
        }
        i = i + 1;
    }
    None
}

/// Finds the largest JPEG image embedded in `bytes`.
///
/// The file is scanned from the front: each `FF D8` starts a segment that
/// runs up to and including the next `FF D9`, and the search for the next
/// segment resumes after it. The longest segment is returned (the first of
/// several equally long ones). The result is `None` when there is no
/// segment, and also when a start marker has no end marker after it.
pub fn embedded_jpeg(bytes: &[u8]) -> (r: Option<&[u8]>)
    ensures
        match embedded_jpeg_range(bytes@) {
            None => r is None,
            Some(range) => r matches Some(s) && s@ == bytes@.subrange(range.0, range.1),
        },
{
    let len = bytes.len();
    let mut largest: Option<(usize, usize)> = None;
    let mut offset: usize = 0;
    let ghost mut done: Seq<(int, int)> = Seq::empty();
    proof {
        lemma_segments_well_formed(bytes@, 0);
    }
    loop
        invariant
            offset <= len,
            len == bytes@.len(),
            segments_from(bytes@, 0) == prepend(done, segments_from(bytes@, offset as int)),
            match largest {
                None => first_longest(done) is None,
                Some(p) => first_longest(done) == Some((p.0 as int, p.1 as int)) && p.0 <= p.1
                    <= len,
            },
        ensures
            segments_from(bytes@, 0) == Some(done),
            match largest {
                None => first_longest(done) is None,
                Some(p) => first_longest(done) == Some((p.0 as int, p.1 as int)) && p.0 <= p.1
                    <= len,
            },
        decreases len - offset,
    {
        let start = match find_marker_exec(bytes, offset, SOI) {
            None => {
                assert(segments_from(bytes@, offset as int) == Some(Seq::<(int, int)>::empty()));
                assert(done + Seq::<(int, int)>::empty() == done);
                break ;
            },
            Some(s) => s,
        };
        proof {
            lemma_find_marker(bytes@, offset as int, SOI);
        }
        let found = find_marker_exec(bytes, start + 2, EOI);
        proof {
            lemma_find_marker(bytes@, start + 2, EOI);
        }
        let end = match found {
            None => {
                assert(segments_from(bytes@, offset as int) is None);
                return None;
            },
            Some(e) => e + 2,
        };
        proof {
            let rest = segments_from(bytes@, end as int);
            if let Some(r) = rest {
                assert(done + (seq![(start as int, end as int)] + r) == done.push(
                    (start as int, end as int),
                ) + r);
            }
            let nd = done.push((start as int, end as int));
            assert(nd.drop_last() == done);
            done = nd;
        }
        let replace = match largest {
            None => true,
            Some(current) => end - start > current.1 - current.0,
        };
        if replace {
            largest = Some((start, end));
        }
        offset = end;
    }
    match largest {
        None => None,
        Some(range) => {
            let s = &bytes[range.0..range.1];
            assert(s@ == bytes@.subrange(range.0 as int, range.1 as int));
            Some(s)
        },
    }
}

/// The embedded preview, when there is one, is a contiguous part of the
/// file that starts with a start-of-image marker `FF D8` and ends with an
/// end-of-image marker `FF D9`, and no segment found by the scan is longer.
pub proof fn lemma_embedded_jpeg_is_longest_segment(b: Seq<u8>)
    ensures
        embedded_jpeg_range(b) matches Some(r) ==> {
            &&& 0 <= r.0
            &&& r.0 + 4 <= r.1 <= b.len()
            &&& b[r.0] == 0xffu8 && b[r.0 + 1] == SOI
            &&& b[r.1 - 2] == 0xffu8 && b[r.1 - 1] == EOI
            &&& segments_from(b, 0) matches Some(segs) && forall|k: int|
                0 <= k < segs.len() ==> seg_len(#[trigger] segs[k]) <= seg_len(r)
        },
{
    lemma_segments_well_formed(b, 0);
    if let Some(segs) = segments_from(b, 0) {
        lemma_first_longest(segs);
        if let Some(r) = first_longest(segs) {
            let k = choose|k: int|
                #![trigger segs[k]]
                0 <= k < segs.len() && segs[k] == r && (forall|j: int|
                    0 <= j < k ==> seg_len(#[trigger] segs[j]) < seg_len(r));
            assert(segs[k] == r);
        }
    }
}

} // verus!
