//! Lists of paths used as sets and queues. Paths are compared as `Path`
//! compares them (`path_eq`).
use vstd::prelude::*;
use crate::files::texts;
use crate::paths::{path_eq, same_path};

verus! {

/// `s` holds a path equal to `x`.
pub open spec fn holds_path(s: Seq<Seq<char>>, x: Seq<char>) -> bool {
    exists|i: int| 0 <= i < s.len() && path_eq(#[trigger] s[i], x)
}

/// `s` without the paths equal to `x`.
pub open spec fn without(s: Seq<Seq<char>>, x: Seq<char>) -> Seq<Seq<char>>
    decreases s.len(),
{
    if s.len() == 0 {
        s
    } else if path_eq(s.last(), x) {
        without(s.drop_last(), x)
    } else {
        without(s.drop_last(), x).push(s.last())
    }
}

/// `s` with `x` added at the end, unless it holds an equal path already.
pub open spec fn insert_absent(s: Seq<Seq<char>>, x: Seq<char>) -> Seq<Seq<char>> {
    if holds_path(s, x) {
        s
    } else {
        s.push(x)
    }
}

/// Removing `x` leaves no path equal to `x`, and does not add any.
pub proof fn lemma_without(s: Seq<Seq<char>>, x: Seq<char>)
    ensures
        !holds_path(without(s, x), x),
        without(s, x).len() <= s.len(),
    decreases s.len(),
{
    if s.len() > 0 {
        let init = s.drop_last();
        lemma_without(init, x);
        let w = without(init, x);
        if !path_eq(s.last(), x) {
            if holds_path(w.push(s.last()), x) {
                let k = choose|k: int|
                    0 <= k < w.push(s.last()).len() && path_eq(#[trigger] w.push(s.last())[k], x);
                assert(k < w.len() ==> w[k] == w.push(s.last())[k]);
            }
        }
    }
}

/// Removing a path that is not there changes nothing.
pub proof fn lemma_without_absent(s: Seq<Seq<char>>, x: Seq<char>)
    requires
        !holds_path(s, x),
    ensures
        without(s, x) == s,
    decreases s.len(),
{
    if s.len() > 0 {
        let init = s.drop_last();
        if holds_path(init, x) {
            let k = choose|k: int| 0 <= k < init.len() && path_eq(#[trigger] init[k], x);
            assert(s[k] == init[k]);
        }
        assert(s[s.len() - 1] == s.last());
        lemma_without_absent(init, x);
        assert(init.push(s.last()) == s);
    }
}


/// The positions of `s` that `without(s, x)` keeps, in order.
pub open spec fn kept_positions(s: Seq<Seq<char>>, x: Seq<char>) -> Seq<int>
    decreases s.len(),
{
    if s.len() == 0 {
        Seq::empty()
    } else if path_eq(s.last(), x) {
        kept_positions(s.drop_last(), x)
    } else {
        kept_positions(s.drop_last(), x).push(s.len() - 1)
    }
}

/// `without(s, x)` is the subsequence of `s` at `kept_positions(s, x)`.
pub proof fn lemma_kept_positions(s: Seq<Seq<char>>, x: Seq<char>)
    ensures
        kept_positions(s, x).len() == without(s, x).len(),
        forall|k: int|
            0 <= k < without(s, x).len() ==> 0 <= #[trigger] kept_positions(s, x)[k] < s.len()
                && without(s, x)[k] == s[kept_positions(s, x)[k]],
        forall|i: int, j: int|
            0 <= i < j < without(s, x).len() ==> #[trigger] kept_positions(s, x)[i]
                < #[trigger] kept_positions(s, x)[j],
    decreases s.len(),
{
    if s.len() > 0 {
        let init = s.drop_last();
        lemma_kept_positions(init, x);
        let kp = kept_positions(init, x);
        let w = without(init, x);
        if !path_eq(s.last(), x) {
            assert forall|k: int| 0 <= k < without(s, x).len() implies 0 <= #[trigger] kept_positions(
                s,
                x,
            )[k] < s.len() && without(s, x)[k] == s[kept_positions(s, x)[k]] by {
                if k < w.len() {
                    assert(kept_positions(s, x)[k] == kp[k]);
                    assert(without(s, x)[k] == w[k]);
                }
            }
            assert forall|i: int, j: int| 0 <= i < j < without(s, x).len() implies #[trigger] kept_positions(
                s,
                x,
            )[i] < #[trigger] kept_positions(s, x)[j] by {
                assert(kept_positions(s, x)[i] == kp[i]);
                if j < w.len() {
                    assert(kept_positions(s, x)[j] == kp[j]);
                }
            }
        }
    }
}


/// A position of `s` whose path is not equal to `x` is kept by `without`.
pub proof fn lemma_kept_contains(s: Seq<Seq<char>>, x: Seq<char>, m: int)
    requires
        0 <= m < s.len(),
        !path_eq(s[m], x),
    ensures
        exists|k: int| 0 <= k < kept_positions(s, x).len() && kept_positions(s, x)[k] == m,
    decreases s.len(),
{
    let init = s.drop_last();
    if m == s.len() - 1 {
        assert(s.last() == s[m]);
        let kp = kept_positions(s, x);
        assert(kp == kept_positions(init, x).push(m));
        assert(kp[kp.len() - 1] == m);
    } else {
        assert(init[m] == s[m]);
        lemma_kept_contains(init, x, m);
        let k = choose|k: int| 0 <= k < kept_positions(init, x).len() && kept_positions(init, x)[k] == m;
        if !path_eq(s.last(), x) {
            assert(kept_positions(s, x) == kept_positions(init, x).push(s.len() - 1));
            assert(kept_positions(s, x)[k] == m);
        } else {
            assert(kept_positions(s, x) == kept_positions(init, x));
        }
    }
}


/// Removing `x` keeps every path that is not equal to it.
pub proof fn lemma_without_keeps(s: Seq<Seq<char>>, x: Seq<char>, y: Seq<char>)
    requires
        holds_path(s, y),
        !path_eq(y, x),
    ensures
        holds_path(without(s, x), y),
{
    let m = choose|m: int| 0 <= m < s.len() && path_eq(#[trigger] s[m], y);
    lemma_kept_contains(s, x, m);
    lemma_kept_positions(s, x);
    let k = choose|k: int| 0 <= k < kept_positions(s, x).len() && kept_positions(s, x)[k] == m;
    assert(without(s, x)[k] == s[m]);
    assert(path_eq(without(s, x)[k], y));
}

/// Adding a path keeps every path held, and holds the added one.
pub proof fn lemma_insert_absent_holds(s: Seq<Seq<char>>, x: Seq<char>)
    ensures
        forall|y: Seq<char>| holds_path(s, y) ==> #[trigger] holds_path(insert_absent(s, x), y),
        holds_path(insert_absent(s, x), x),
{
    assert forall|y: Seq<char>| holds_path(s, y) implies #[trigger] holds_path(insert_absent(s, x), y) by {
        let n = choose|n: int| 0 <= n < s.len() && path_eq(#[trigger] s[n], y);
        assert(insert_absent(s, x)[n] == s[n]);
    }
    if !holds_path(s, x) {
        assert(path_eq(insert_absent(s, x)[s.len() as int], x));
    }
}

/// Whether `v` holds a path equal to `x`.
pub fn contains_path(v: &Vec<String>, x: &str) -> (r: bool)
    ensures
        r == holds_path(texts(v@), x@),
{
    let mut i: usize = 0;
    while i < v.len()
        invariant
            i <= v@.len(),
            forall|j: int| 0 <= j < i ==> !path_eq(#[trigger] texts(v@)[j], x@),
        decreases v@.len() - i,
    {
        if same_path(v[i].as_str(), x) {
            assert(path_eq(texts(v@)[i as int], x@));
            return true;
        }
        i = i + 1;
    }
    false
}

/// Removes every path equal to `x`; tells whether there was one.
pub fn remove_path(v: &mut Vec<String>, x: &str) -> (removed: bool)
    ensures
        texts(final(v)@) == without(texts(old(v)@), x@),
        removed == holds_path(texts(old(v)@), x@),
{
    let mut kept: Vec<String> = Vec::new();
    let mut removed = false;
    let mut i: usize = 0;
    while i < v.len()
        invariant
            i <= v@.len(),
            v@ == old(v)@,
            texts(kept@) == without(texts(v@).subrange(0, i as int), x@),
            removed == holds_path(texts(v@).subrange(0, i as int), x@),
        decreases v@.len() - i,
    {
        let ghost pre = texts(v@).subrange(0, i as int);
        let ghost nxt = texts(v@).subrange(0, i + 1);
        assert(nxt.drop_last() == pre);
        assert(nxt.last() == v@[i as int]@);
        if same_path(v[i].as_str(), x) {
            removed = true;
            assert(path_eq(nxt[i as int], x@));
        } else {
            kept.push(v[i].clone());
            assert(texts(kept@) == without(pre, x@).push(v@[i as int]@));
            proof {
                if holds_path(nxt, x@) {
                    let k = choose|k: int| 0 <= k < nxt.len() && path_eq(#[trigger] nxt[k], x@);
                    assert(pre[k] == nxt[k]);
                }
            }
        }
        proof {
            if holds_path(pre, x@) {
                let k = choose|k: int| 0 <= k < pre.len() && path_eq(#[trigger] pre[k], x@);
                assert(nxt[k] == pre[k]);
            }
        }
        i = i + 1;
    }
    assert(texts(v@).subrange(0, v@.len() as int) == texts(v@));
    *v = kept;
    removed
}

/// Adds `x` at the end unless an equal path is there already.
pub fn insert_path(v: &mut Vec<String>, x: String)
    ensures
        texts(final(v)@) == insert_absent(texts(old(v)@), x@),
{
    if !contains_path(v, x.as_str()) {
        v.push(x);
        assert(texts(v@) == texts(old(v)@).push(x@));
    }
}

} // verus!
