use vstd::prelude::*;

verus! {

/// `s` cut at each occurrence of `sep`: one more piece than there are
/// separators, empty pieces kept.
pub open spec fn split_on<T>(s: Seq<T>, sep: T) -> Seq<Seq<T>>
    decreases s.len(),
{
    if s.len() == 0 {
        seq![Seq::empty()]
    } else {
        let prev = split_on(s.drop_last(), sep);
        if s.last() == sep {
            prev.push(Seq::empty())
        } else {
            prev.update(prev.len() - 1, prev.last().push(s.last()))
        }
    }
}

/// Each part followed by `sep`, one after the other.
pub open spec fn terminated<T>(parts: Seq<Seq<T>>, sep: T) -> Seq<T>
    decreases parts.len(),
{
    if parts.len() == 0 {
        Seq::empty()
    } else {
        terminated(parts.drop_last(), sep) + parts.last().push(sep)
    }
}

/// The parts with `sep` between each two of them.
pub open spec fn joined<T>(parts: Seq<Seq<T>>, sep: T) -> Seq<T> {
    if parts.len() == 0 {
        Seq::empty()
    } else {
        terminated(parts.drop_last(), sep) + parts.last()
    }
}

/// The parts that are not empty, in order.
pub open spec fn nonempty_parts<T>(parts: Seq<Seq<T>>) -> Seq<Seq<T>>
    decreases parts.len(),
{
    if parts.len() == 0 {
        parts
    } else if parts.last().len() > 0 {
        nonempty_parts(parts.drop_last()).push(parts.last())
    } else {
        nonempty_parts(parts.drop_last())
    }
}

pub open spec fn free_of<T>(s: Seq<T>, sep: T) -> bool {
    forall|i: int| 0 <= i < s.len() ==> s[i] != sep
}

pub open spec fn all_free_of<T>(parts: Seq<Seq<T>>, sep: T) -> bool {
    forall|i: int| 0 <= i < parts.len() ==> free_of(#[trigger] parts[i], sep)
}

pub proof fn lemma_split_nonempty<T>(s: Seq<T>, sep: T)
    ensures
        split_on(s, sep).len() >= 1,
    decreases s.len(),
{
    if s.len() > 0 {
        lemma_split_nonempty(s.drop_last(), sep);
    }
}

/// A sequence without the separator is a single piece.
pub proof fn lemma_split_free<T>(s: Seq<T>, sep: T)
    requires
        free_of(s, sep),
    ensures
        split_on(s, sep) == seq![s],
    decreases s.len(),
{
    if s.len() > 0 {
        lemma_split_free(s.drop_last(), sep);
        assert(s[s.len() - 1] != sep);
        assert(s.drop_last().push(s.last()) =~= s);
        assert(split_on(s, sep) =~= seq![s]);
    } else {
        assert(s =~= Seq::<T>::empty());
    }
}

/// Splitting at a separator splits the two sides independently.
pub proof fn lemma_split_concat<T>(a: Seq<T>, b: Seq<T>, sep: T)
    ensures
        split_on(a + seq![sep] + b, sep) == split_on(a, sep) + split_on(b, sep),
    decreases b.len(),
{
    let s = a + seq![sep] + b;
    if b.len() == 0 {
        assert(s.drop_last() =~= a);
        assert(split_on(b, sep) =~= seq![Seq::<T>::empty()]);
        assert(split_on(s, sep) =~= split_on(a, sep) + split_on(b, sep));
    } else {
        lemma_split_concat(a, b.drop_last(), sep);
        lemma_split_nonempty(b.drop_last(), sep);
        assert(s.drop_last() =~= a + seq![sep] + b.drop_last());
        assert(split_on(s, sep) =~= split_on(a, sep) + split_on(b, sep));
    }
}

/// Terminated parts come back as themselves, followed by the pieces of what follows.
pub proof fn lemma_split_terminated<T>(parts: Seq<Seq<T>>, tail: Seq<T>, sep: T)
    requires
        all_free_of(parts, sep),
    ensures
        split_on(terminated(parts, sep) + tail, sep) == parts + split_on(tail, sep),
    decreases parts.len(),
{
    if parts.len() == 0 {
        assert(terminated(parts, sep) + tail =~= tail);
        assert(parts + split_on(tail, sep) =~= split_on(tail, sep));
    } else {
        let rest = parts.drop_last();
        let p = parts.last();
        assert(free_of(parts[parts.len() - 1], sep));
        assert forall|i: int| 0 <= i < rest.len() implies free_of(#[trigger] rest[i], sep) by {
            assert(free_of(parts[i], sep));
        }
        let t2 = p + seq![sep] + tail;
        lemma_split_terminated(rest, t2, sep);
        assert(terminated(parts, sep) + tail =~= terminated(rest, sep) + t2);
        lemma_split_concat(p, tail, sep);
        lemma_split_free(p, sep);
        assert(parts + split_on(tail, sep) =~= rest + (seq![p] + split_on(tail, sep)));
    }
}

/// Joined parts split back into the same parts.
pub proof fn lemma_split_joined<T>(parts: Seq<Seq<T>>, sep: T)
    requires
        parts.len() >= 1,
        all_free_of(parts, sep),
    ensures
        split_on(joined(parts, sep), sep) == parts,
{
    let rest = parts.drop_last();
    assert forall|i: int| 0 <= i < rest.len() implies free_of(#[trigger] rest[i], sep) by {
        assert(free_of(parts[i], sep));
    }
    assert(free_of(parts[parts.len() - 1], sep));
    lemma_split_terminated(rest, parts.last(), sep);
    lemma_split_free(parts.last(), sep);
    assert(rest + seq![parts.last()] =~= parts);
}

pub proof fn lemma_terminated_push<T>(parts: Seq<Seq<T>>, x: Seq<T>, sep: T)
    ensures
        terminated(parts.push(x), sep) == terminated(parts, sep) + x.push(sep),
{
    assert(parts.push(x).drop_last() =~= parts);
}

pub proof fn lemma_terminated_concat<T>(a: Seq<Seq<T>>, b: Seq<Seq<T>>, sep: T)
    ensures
        terminated(a + b, sep) == terminated(a, sep) + terminated(b, sep),
    decreases b.len(),
{
    if b.len() == 0 {
        assert(a + b =~= a);
        assert(terminated(a, sep) + terminated(b, sep) =~= terminated(a, sep));
    } else {
        lemma_terminated_concat(a, b.drop_last(), sep);
        assert((a + b).drop_last() =~= a + b.drop_last());
        assert(terminated(a + b, sep) =~= terminated(a, sep) + terminated(b, sep));
    }
}

/// Every element of `terminated(parts, sep)` is `sep` or an element of a part.
pub proof fn lemma_terminated_elements<T>(parts: Seq<Seq<T>>, sep: T, pred: spec_fn(T) -> bool)
    requires
        pred(sep),
        forall|i: int, j: int|
            0 <= i < parts.len() && 0 <= j < parts[i].len() ==> pred(#[trigger] parts[i][j]),
    ensures
        forall|k: int|
            0 <= k < terminated(parts, sep).len() ==> pred(#[trigger] terminated(parts, sep)[k]),
    decreases parts.len(),
{
    if parts.len() > 0 {
        let rest = parts.drop_last();
        assert forall|i: int, j: int| 0 <= i < rest.len() && 0 <= j < rest[i].len() implies pred(
            #[trigger] rest[i][j],
        ) by {
            assert(rest[i] == parts[i]);
        }
        lemma_terminated_elements(rest, sep, pred);
        let t = terminated(parts, sep);
        let tr = terminated(rest, sep);
        let last = parts.last();
        assert forall|k: int| 0 <= k < t.len() implies pred(#[trigger] t[k]) by {
            if k < tr.len() {
                assert(t[k] == tr[k]);
            } else if k < tr.len() + last.len() {
                assert(t[k] == parts[parts.len() - 1][k - tr.len()]);
            } else {
                assert(t[k] == sep);
            }
        }
    }
}

/// Every element of `joined(parts, sep)` is `sep` or an element of a part.
pub proof fn lemma_joined_elements<T>(parts: Seq<Seq<T>>, sep: T, pred: spec_fn(T) -> bool)
    requires
        pred(sep),
        forall|i: int, j: int|
            0 <= i < parts.len() && 0 <= j < parts[i].len() ==> pred(#[trigger] parts[i][j]),
    ensures
        forall|k: int|
            0 <= k < joined(parts, sep).len() ==> pred(#[trigger] joined(parts, sep)[k]),
{
    if parts.len() > 0 {
        let rest = parts.drop_last();
        assert forall|i: int, j: int| 0 <= i < rest.len() && 0 <= j < rest[i].len() implies pred(
            #[trigger] rest[i][j],
        ) by {
            assert(rest[i] == parts[i]);
        }
        lemma_terminated_elements(rest, sep, pred);
        let t = joined(parts, sep);
        let tr = terminated(rest, sep);
        assert forall|k: int| 0 <= k < t.len() implies pred(#[trigger] t[k]) by {
            if k < tr.len() {
                assert(t[k] == tr[k]);
            } else {
                assert(t[k] == parts[parts.len() - 1][k - tr.len()]);
            }
        }
    }
}

/// Dropping empty parts leaves parts that are all non-empty unchanged.
pub proof fn lemma_nonempty_parts_id<T>(parts: Seq<Seq<T>>)
    requires
        forall|i: int| 0 <= i < parts.len() ==> (#[trigger] parts[i]).len() > 0,
    ensures
        nonempty_parts(parts) == parts,
    decreases parts.len(),
{
    if parts.len() > 0 {
        let rest = parts.drop_last();
        assert forall|i: int| 0 <= i < rest.len() implies (#[trigger] rest[i]).len() > 0 by {
            assert(rest[i] == parts[i]);
        }
        lemma_nonempty_parts_id(rest);
        assert(parts[parts.len() - 1].len() > 0);
        assert(rest.push(parts.last()) =~= parts);
    }
}

} // verus!
