//! Cutting a sequence into the pieces between its separators, and stripping its ends.
use vstd::prelude::*;

verus! {

/// The pieces of `s` between the elements for which `sep` holds, in order, the empty ones
/// included: there is always one piece more than there are separators.
pub open spec fn split<T>(s: Seq<T>, sep: spec_fn(T) -> bool) -> Seq<Seq<T>>
    decreases s.len(),
{
    if s.len() == 0 {
        seq![Seq::<T>::empty()]
    } else {
        let before = split(s.drop_last(), sep);
        if sep(s.last()) {
            before.push(Seq::<T>::empty())
        } else {
            before.drop_last().push(before.last().push(s.last()))
        }
    }
}

/// The pieces that `keep` holds for, in order.
pub open spec fn kept<T>(pieces: Seq<Seq<T>>, keep: spec_fn(Seq<T>) -> bool) -> Seq<Seq<T>>
    decreases pieces.len(),
{
    if pieces.len() == 0 {
        Seq::empty()
    } else if keep(pieces.last()) {
        kept(pieces.drop_last(), keep).push(pieces.last())
    } else {
        kept(pieces.drop_last(), keep)
    }
}

/// `s` without the longest run of elements at its front for which `drop` holds.
pub open spec fn strip_start<T>(s: Seq<T>, drop: spec_fn(T) -> bool) -> Seq<T>
    decreases s.len(),
{
    if s.len() > 0 && drop(s[0]) {
        strip_start(s.skip(1), drop)
    } else {
        s
    }
}

/// `s` without the longest run of elements at its end for which `drop` holds.
pub open spec fn strip_end<T>(s: Seq<T>, drop: spec_fn(T) -> bool) -> Seq<T>
    decreases s.len(),
{
    if s.len() > 0 && drop(s.last()) {
        strip_end(s.drop_last(), drop)
    } else {
        s
    }
}

/// There is always at least one piece, and no piece holds a separator.
pub proof fn lemma_split_pieces<T>(s: Seq<T>, sep: spec_fn(T) -> bool)
    ensures
        split(s, sep).len() >= 1,
        forall|k: int, i: int|
            0 <= k < split(s, sep).len() && 0 <= i < split(s, sep)[k].len() ==> !sep(
                #[trigger] split(s, sep)[k][i],
            ),
    decreases s.len(),
{
    if s.len() > 0 {
        lemma_split_pieces(s.drop_last(), sep);
        let before = split(s.drop_last(), sep);
        let all = split(s, sep);
        assert forall|k: int, i: int| 0 <= k < all.len() && 0 <= i < all[k].len() implies !sep(
            #[trigger] all[k][i],
        ) by {
            if k < before.len() - 1 {
                assert(all[k] == before[k]);
                assert(!sep(before[k][i]));
            } else if sep(s.last()) {
                if k == before.len() - 1 {
                    assert(all[k] == before[k]);
                    assert(!sep(before[k][i]));
                }
            } else if i < before.last().len() {
                assert(all[k][i] == before[k][i]);
                assert(!sep(before[k][i]));
            }
        }
    }
}

/// A sequence without separators is one piece.
pub proof fn lemma_split_plain<T>(s: Seq<T>, sep: spec_fn(T) -> bool)
    requires
        forall|i: int| 0 <= i < s.len() ==> !sep(#[trigger] s[i]),
    ensures
        split(s, sep) == seq![s],
    decreases s.len(),
{
    if s.len() > 0 {
        let front = s.drop_last();
        assert forall|i: int| 0 <= i < front.len() implies !sep(#[trigger] front[i]) by {
            assert(front[i] == s[i]);
        }
        lemma_split_plain(front, sep);
        assert(front.push(s.last()) == s);
        assert(!sep(s[s.len() - 1]));
        assert(split(s, sep) =~= seq![s]);
    } else {
        assert(s == Seq::<T>::empty());
    }
}

/// Splitting a concatenation: the last piece of the first half and the first piece of the
/// second half grow together, the other pieces stay.
pub proof fn lemma_split_concat<T>(a: Seq<T>, b: Seq<T>, sep: spec_fn(T) -> bool)
    ensures
        split(a + b, sep) == split(a, sep).drop_last().push(split(a, sep).last() + split(b, sep)[0])
            + split(b, sep).skip(1),
    decreases b.len(),
{
    lemma_split_pieces(a, sep);
    lemma_split_pieces(b, sep);
    let pa = split(a, sep);
    let pb = split(b, sep);
    if b.len() == 0 {
        assert(a + b == a);
        assert(pa.last() + pb[0] == pa.last());
        assert(pa =~= pa.drop_last().push(pa.last() + pb[0]) + pb.skip(1));
    } else {
        let front = b.drop_last();
        lemma_split_concat(a, front, sep);
        lemma_split_pieces(front, sep);
        let pf = split(front, sep);
        assert((a + b).drop_last() == a + front);
        assert((a + b).last() == b.last());
        let before = split(a + front, sep);
        if sep(b.last()) {
            assert(pb[0] == pf[0]);
            assert(split(a + b, sep) =~= pa.drop_last().push(pa.last() + pb[0]) + pb.skip(1));
        } else if pf.len() == 1 {
            assert(pf.skip(1) =~= Seq::<Seq<T>>::empty());
            assert(before =~= pa.drop_last().push(pa.last() + pf[0]));
            assert(pb =~= seq![pf[0].push(b.last())]);
            assert((pa.last() + pf[0]).push(b.last()) == pa.last() + pb[0]);
            assert(split(a + b, sep) =~= pa.drop_last().push(pa.last() + pb[0]) + pb.skip(1));
        } else {
            assert(pb[0] == pf[0]);
            assert(before.last() == pf.last());
            assert(before.drop_last() =~= pa.drop_last().push(pa.last() + pf[0]) + pf.skip(
                1,
            ).drop_last());
            assert(pb.skip(1) =~= pf.skip(1).drop_last().push(pf.last().push(b.last())));
            assert(split(a + b, sep) =~= pa.drop_last().push(pa.last() + pb[0]) + pb.skip(1));
        }
    }
}

/// Two parts with a separator between them are split each for itself.
pub proof fn lemma_split_around<T>(a: Seq<T>, x: T, b: Seq<T>, sep: spec_fn(T) -> bool)
    requires
        sep(x),
    ensures
        split(a.push(x) + b, sep) == split(a, sep) + split(b, sep),
{
    lemma_split_pieces(a, sep);
    lemma_split_pieces(b, sep);
    lemma_split_concat(a.push(x), b, sep);
    assert(a.push(x).drop_last() == a);
    let pa = split(a, sep);
    let pb = split(b, sep);
    let pax = split(a.push(x), sep);
    assert(pax == pa.push(Seq::<T>::empty()));
    assert(pax.drop_last() =~= pa);
    assert(pax.last() + pb[0] =~= pb[0]);
    assert(pa.push(pb[0]) + pb.skip(1) =~= pa + pb);
}

/// Keeping pieces works part by part.
pub proof fn lemma_kept_concat<T>(a: Seq<Seq<T>>, b: Seq<Seq<T>>, keep: spec_fn(Seq<T>) -> bool)
    ensures
        kept(a + b, keep) == kept(a, keep) + kept(b, keep),
    decreases b.len(),
{
    if b.len() == 0 {
        assert(a + b == a);
        assert(kept(a, keep) + kept(b, keep) =~= kept(a, keep));
    } else {
        lemma_kept_concat(a, b.drop_last(), keep);
        assert((a + b).drop_last() == a + b.drop_last());
        assert((a + b).last() == b.last());
        assert(kept(a + b, keep) =~= kept(a, keep) + kept(b, keep));
    }
}

/// Every kept piece is one of the pieces, and `keep` holds for it.
pub proof fn lemma_kept_members<T>(pieces: Seq<Seq<T>>, keep: spec_fn(Seq<T>) -> bool)
    ensures
        forall|k: int|
            0 <= k < kept(pieces, keep).len() ==> keep(#[trigger] kept(pieces, keep)[k])
                && pieces.contains(kept(pieces, keep)[k]),
    decreases pieces.len(),
{
    if pieces.len() > 0 {
        let front = pieces.drop_last();
        lemma_kept_members(front, keep);
        let all = kept(pieces, keep);
        assert forall|k: int| 0 <= k < all.len() implies keep(#[trigger] all[k])
            && pieces.contains(all[k]) by {
            if k < kept(front, keep).len() {
                assert(all[k] == kept(front, keep)[k]);
                let j = choose|j: int| 0 <= j < front.len() && front[j] == all[k];
                assert(pieces[j] == all[k]);
            } else {
                assert(all[k] == pieces[pieces.len() - 1]);
            }
        }
    }
}

/// Stripping the front by hand: `s` from index `i` on, when `drop` holds before `i` and not at
/// it.
pub proof fn lemma_strip_start<T>(s: Seq<T>, drop: spec_fn(T) -> bool, i: int)
    requires
        0 <= i <= s.len(),
        forall|j: int| 0 <= j < i ==> drop(#[trigger] s[j]),
        i < s.len() ==> !drop(s[i]),
    ensures
        strip_start(s, drop) == s.skip(i),
    decreases i,
{
    if i == 0 {
        assert(s.skip(0) == s);
    } else {
        let rest = s.skip(1);
        assert(drop(s[0]));
        assert forall|j: int| 0 <= j < i - 1 implies drop(#[trigger] rest[j]) by {
            assert(rest[j] == s[j + 1]);
        }
        lemma_strip_start(rest, drop, i - 1);
        assert(rest.skip(i - 1) == s.skip(i));
    }
}

/// Stripping the end by hand: `s` before index `n`, when `drop` holds from `n` on and not just
/// before it.
pub proof fn lemma_strip_end<T>(s: Seq<T>, drop: spec_fn(T) -> bool, n: int)
    requires
        0 <= n <= s.len(),
        forall|j: int| n <= j < s.len() ==> drop(#[trigger] s[j]),
        n > 0 ==> !drop(s[n - 1]),
    ensures
        strip_end(s, drop) == s.take(n),
    decreases s.len() - n,
{
    if n == s.len() {
        assert(s.take(n) == s);
        if n > 0 {
            assert(s.last() == s[n - 1]);
        }
    } else {
        let front = s.drop_last();
        assert(drop(s[s.len() - 1]));
        assert forall|j: int| n <= j < front.len() implies drop(#[trigger] front[j]) by {
            assert(front[j] == s[j]);
        }
        lemma_strip_end(front, drop, n);
        assert(front.take(n) == s.take(n));
    }
}

/// Stripping the front takes away a front part that `drop` holds for throughout, and leaves nothing
/// more to take away.
pub proof fn law_strip_start<T>(s: Seq<T>, drop: spec_fn(T) -> bool) -> (n: int)
    ensures
        0 <= n <= s.len(),
        strip_start(s, drop) == s.skip(n),
        forall|j: int| 0 <= j < n ==> drop(#[trigger] s[j]),
        n < s.len() ==> !drop(s[n]),
    decreases s.len(),
{
    if s.len() > 0 && drop(s[0]) {
        let rest = s.skip(1);
        let n = law_strip_start(rest, drop) + 1;
        assert(rest.skip(n - 1) =~= s.skip(n));
        assert forall|j: int| 0 <= j < n implies drop(#[trigger] s[j]) by {
            if j > 0 {
                assert(drop(rest[j - 1]));
            }
        }
        if n < s.len() {
            assert(rest[n - 1] == s[n]);
        }
        n
    } else {
        assert(s.skip(0) =~= s);
        0
    }
}

/// Stripping the end takes away an end part that `drop` holds for throughout, and leaves nothing
/// more to take away.
pub proof fn law_strip_end<T>(s: Seq<T>, drop: spec_fn(T) -> bool) -> (n: int)
    ensures
        0 <= n <= s.len(),
        strip_end(s, drop) == s.take(n),
        forall|j: int| n <= j < s.len() ==> drop(#[trigger] s[j]),
        n > 0 ==> !drop(s[n - 1]),
    decreases s.len(),
{
    if s.len() > 0 && drop(s.last()) {
        let rest = s.drop_last();
        let n = law_strip_end(rest, drop);
        assert(rest.take(n) =~= s.take(n));
        assert forall|j: int| n <= j < s.len() implies drop(#[trigger] s[j]) by {
            if j < rest.len() {
                assert(drop(rest[j]));
            }
        }
        if n > 0 {
            assert(rest[n - 1] == s[n - 1]);
        }
        n
    } else {
        assert(s.take(s.len() as int) =~= s);
        s.len() as int
    }
}

/// The pieces hold the elements that are no separators, in their order: a sequence without
/// separators is its only piece, and a separator between two sequences parts their pieces.
pub proof fn law_split<T>(a: Seq<T>, x: T, b: Seq<T>, sep: spec_fn(T) -> bool)
    requires
        forall|i: int| 0 <= i < a.len() ==> !sep(#[trigger] a[i]),
        sep(x),
    ensures
        split(a, sep) == seq![a],
        split(a.push(x) + b, sep) == seq![a] + split(b, sep),
{
    lemma_split_plain(a, sep);
    lemma_split_around(a, x, b, sep);
}

} // verus!
