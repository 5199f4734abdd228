use vstd::prelude::*;

verus! {

/// The entity picked by a click: the last one, in drawing order, whose bounds
/// hold the pointer (it is drawn on top); the earlier selection when none does.
pub open spec fn topmost_hit(hits: Seq<bool>, current: Option<usize>) -> Option<usize>
    decreases hits.len(),
{
    if hits.len() == 0 {
        current
    } else if hits.last() {
        Some((hits.len() - 1) as usize)
    } else {
        topmost_hit(hits.drop_last(), current)
    }
}

/// Picks among entities given, in drawing order, whether each one's bounds hold
/// the pointer. Zero-size entities are reported as not hit.
pub fn pick_topmost(hits: &Vec<bool>, current: Option<usize>) -> (r: Option<usize>)
    ensures
        r == topmost_hit(hits@, current),
        match r {
            Some(i) if r != current => i < hits@.len() && hits@[i as int],
            _ => true,
        },
        (exists|i: int| 0 <= i < hits@.len() && hits@[i]) ==> (r.is_some() && r.unwrap()
            < hits@.len() && hits@[r.unwrap() as int] && forall|j: int|
            r.unwrap() < j < hits@.len() ==> !hits@[j]),
        (forall|i: int| 0 <= i < hits@.len() ==> !hits@[i]) ==> r == current,
{
    let mut picked = current;
    let mut i: usize = 0;
    while i < hits.len()
        invariant
            i <= hits@.len(),
            picked == topmost_hit(hits@.take(i as int), current),
        decreases hits@.len() - i,
    {
        assert(hits@.take(i as int + 1).drop_last() =~= hits@.take(i as int));
        if hits[i] {
            picked = Some(i);
        }
        i = i + 1;
    }
    assert(hits@.take(hits@.len() as int) =~= hits@);
    proof {
        lemma_topmost_hit(hits@, current);
    }
    picked
}

/// `topmost_hit` is the last hit entity when there is one, else `current`.
pub proof fn lemma_topmost_hit(hits: Seq<bool>, current: Option<usize>)
    requires
        hits.len() <= usize::MAX + 1,
    ensures
        match topmost_hit(hits, current) {
            Some(i) if topmost_hit(hits, current) != current => i < hits.len() && hits[i as int],
            _ => true,
        },
        (exists|i: int| 0 <= i < hits.len() && hits[i]) ==> ({
            let r = topmost_hit(hits, current);
            &&& r.is_some()
            &&& r.unwrap() < hits.len()
            &&& hits[r.unwrap() as int]
            &&& forall|j: int| r.unwrap() < j < hits.len() ==> !hits[j]
        }),
        (forall|i: int| 0 <= i < hits.len() ==> !hits[i]) ==> topmost_hit(hits, current)
            == current,
    decreases hits.len(),
{
    if hits.len() > 0 {
        let rest = hits.drop_last();
        lemma_topmost_hit(rest, current);
        if hits.last() {
            assert(hits[hits.len() - 1]);
        } else {
            if exists|i: int| 0 <= i < hits.len() && hits[i] {
                let i = choose|i: int| 0 <= i < hits.len() && hits[i];
                assert(rest[i]);
                let r = topmost_hit(rest, current);
                assert forall|j: int| r.unwrap() < j < hits.len() implies !hits[j] by {
                    if j < rest.len() {
                        assert(!rest[j]);
                    }
                }
            }
            if forall|i: int| 0 <= i < hits.len() ==> !hits[i] {
                assert forall|i: int| 0 <= i < rest.len() implies !rest[i] by {
                    assert(!hits[i]);
                }
            }
        }
    }
}

/// Of two overlapping entities drawn A then B, a point inside both picks B,
/// unless an entity drawn after B holds it too.
pub proof fn lemma_later_overlap_wins(
    hits: Seq<bool>,
    a: int,
    b: int,
    current: Option<usize>,
)
    requires
        hits.len() <= usize::MAX + 1,
        0 <= a < b < hits.len(),
        hits[a],
        hits[b],
        forall|j: int| b < j < hits.len() ==> !hits[j],
    ensures
        topmost_hit(hits, current) == Some(b as usize),
{
    lemma_topmost_hit(hits, current);
    let r = topmost_hit(hits, current);
    assert(r.unwrap() as int == b) by {
        if (r.unwrap() as int) < b {
        }
    }
}

} // verus!
