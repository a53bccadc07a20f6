//! Sequences made of the sequences that the items of another one give.

use vstd::prelude::*;

verus! {

/// What the items of a sequence hold.
pub open spec fn views<T: View>(v: Seq<T>) -> Seq<T::V> {
    v.map_values(|x: T| x@)
}

/// What a value that may be missing holds.
pub open spec fn view_of<T: View>(v: Option<T>) -> Option<T::V> {
    match v {
        Some(x) => Some(x@),
        None => None,
    }
}

/// What `f` gives for each item of `s`, in order, put together.
pub open spec fn gather<A, B>(s: Seq<A>, f: spec_fn(A) -> Seq<B>) -> Seq<B>
    decreases s.len(),
{
    if s.len() == 0 {
        Seq::empty()
    } else {
        gather(s.drop_last(), f) + f(s.last())
    }
}

/// A sequence of the one item that may be there.
pub open spec fn at_most_one<B>(o: Option<B>) -> Seq<B> {
    match o {
        Some(b) => seq![b],
        None => Seq::empty(),
    }
}

pub proof fn lemma_gather_step<A, B>(s: Seq<A>, f: spec_fn(A) -> Seq<B>, i: int)
    requires
        0 <= i < s.len(),
    ensures
        gather(s.take(i + 1), f) == gather(s.take(i), f) + f(s[i]),
{
    assert(s.take(i + 1).drop_last() =~= s.take(i));
}

/// What holds of everything that `f` gives holds of what is gathered.
pub proof fn lemma_gather_all<A, B>(
    s: Seq<A>,
    f: spec_fn(A) -> Seq<B>,
    holds: spec_fn(B) -> bool,
)
    requires
        forall|a: A, i: int| 0 <= i < f(a).len() ==> holds(#[trigger] f(a)[i]),
    ensures
        forall|i: int| 0 <= i < gather(s, f).len() ==> holds(#[trigger] gather(s, f)[i]),
    decreases s.len(),
{
    if s.len() > 0 {
        lemma_gather_all(s.drop_last(), f, holds);
        let head = gather(s.drop_last(), f);
        let tail = f(s.last());
        assert forall|i: int| 0 <= i < gather(s, f).len() implies holds(
            #[trigger] gather(s, f)[i],
        ) by {
            if i < head.len() {
                assert(gather(s, f)[i] == head[i]);
            } else {
                assert(gather(s, f)[i] == tail[i - head.len()]);
            }
        }
    }
}

/// `s` cut into pieces of `n` items; the last piece holds what is left.
pub open spec fn chunks<A>(s: Seq<A>, n: nat) -> Seq<Seq<A>>
    decreases s.len(),
{
    if n == 0 || s.len() == 0 {
        Seq::empty()
    } else if s.len() <= n {
        seq![s]
    } else {
        seq![s.take(n as int)] + chunks(s.skip(n as int), n)
    }
}

/// The pieces that a sequence is cut into hold its items in order, none of them
/// is empty, and none has more than `n` items.
pub proof fn law_chunks<A>(s: Seq<A>, n: nat)
    requires
        n > 0,
    ensures
        chunks(s, n).flatten() == s,
        forall|i: int| 0 <= i < chunks(s, n).len() ==> 0 < (#[trigger] chunks(s, n)[i]).len() <= n,
    decreases s.len(),
{
    if s.len() == 0 {
    } else if s.len() <= n {
        chunks(s, n).lemma_flatten_one_element();
    } else {
        let rest = chunks(s.skip(n as int), n);
        law_chunks(s.skip(n as int), n);
        let all = chunks(s, n);
        assert(all.drop_first() =~= rest);
        assert(all.flatten() =~= s.take(n as int) + rest.flatten());
        assert(s.take(n as int) + s.skip(n as int) =~= s);
        assert forall|i: int| 0 <= i < all.len() implies 0 < (#[trigger] all[i]).len() <= n by {
            if i > 0 {
                assert(all[i] == rest[i - 1]);
            }
        }
    }
}

/// What a sequence holds is what its items are, one by one and in order.
pub proof fn law_views_are_those_of_the_items<T: View>(v: Seq<T>, i: int)
    requires
        0 <= i < v.len(),
    ensures
        views(v).len() == v.len(),
        views(v)[i] == v[i]@,
        view_of(Some(v[i])) == Some(v[i]@),
        view_of(None::<T>) is None,
{
}

/// The pieces of two sequences that stand one behind the other stand one behind
/// the other.
pub proof fn lemma_gather_append<A, B>(a: Seq<A>, b: Seq<A>, f: spec_fn(A) -> Seq<B>)
    ensures
        gather(a + b, f) == gather(a, f) + gather(b, f),
    decreases b.len(),
{
    if b.len() == 0 {
        assert(a + b =~= a);
        assert(gather(a, f) + gather(b, f) =~= gather(a, f));
    } else {
        lemma_gather_append(a, b.drop_last(), f);
        assert((a + b).drop_last() =~= a + b.drop_last());
        assert((a + b).last() == b.last());
        assert(gather(a + b, f) =~= gather(a, f) + gather(b, f));
    }
}

/// What is gathered from one item is what the item gives.
pub proof fn lemma_gather_one<A, B>(a: A, f: spec_fn(A) -> Seq<B>)
    ensures
        gather(seq![a], f) == f(a),
{
    assert(seq![a].drop_last() =~= Seq::<A>::empty());
    assert(gather(seq![a].drop_last(), f) =~= Seq::<B>::empty());
    assert(gather(seq![a], f) =~= f(a));
}

/// Where each item gives one, there are as many, in the same order.
pub proof fn lemma_gather_each<A, B>(s: Seq<A>, f: spec_fn(A) -> Seq<B>, out: Seq<B>)
    requires
        out.len() == s.len(),
        forall|i: int| 0 <= i < s.len() ==> f(#[trigger] s[i]) == seq![out[i]],
    ensures
        gather(s, f) == out,
    decreases s.len(),
{
    if s.len() == 0 {
        assert(out =~= Seq::empty());
    } else {
        let head = s.drop_last();
        assert forall|i: int| 0 <= i < head.len() implies f(#[trigger] head[i])
            == seq![out.drop_last()[i]] by {
            assert(head[i] == s[i]);
        }
        lemma_gather_each(head, f, out.drop_last());
        assert(s.last() == s[s.len() - 1]);
        assert(gather(s, f) =~= out);
    }
}

/// Where each item gives itself or nothing, those that give themselves are
/// gathered.
pub proof fn lemma_gather_is_filter<A>(
    s: Seq<A>,
    f: spec_fn(A) -> Seq<A>,
    keep: spec_fn(A) -> bool,
)
    requires
        forall|a: A| #[trigger]
            f(a) == (if keep(a) {
                seq![a]
            } else {
                Seq::empty()
            }),
    ensures
        gather(s, f) == s.filter(keep),
    decreases s.len(),
{
    reveal(Seq::filter);
    if s.len() > 0 {
        lemma_gather_is_filter(s.drop_last(), f, keep);
        assert(f(s.last()).len() <= 1);
        assert(gather(s, f) =~= s.filter(keep));
    }
}

/// Where each item gives what `g` makes of it or nothing, what `g` makes of
/// those that give something is gathered.
pub proof fn lemma_gather_is_map_of_filter<A, B>(
    s: Seq<A>,
    f: spec_fn(A) -> Seq<B>,
    keep: spec_fn(A) -> bool,
    g: spec_fn(A) -> B,
)
    requires
        forall|a: A| #[trigger]
            f(a) == (if keep(a) {
                seq![g(a)]
            } else {
                Seq::empty()
            }),
    ensures
        gather(s, f) == s.filter(keep).map_values(g),
    decreases s.len(),
{
    reveal(Seq::filter);
    if s.len() > 0 {
        lemma_gather_is_map_of_filter(s.drop_last(), f, keep, g);
        assert(f(s.last()).len() <= 1);
        assert(gather(s, f) =~= s.filter(keep).map_values(g));
    } else {
        assert(s.filter(keep) =~= Seq::empty());
        assert(gather(s, f) =~= s.filter(keep).map_values(g));
    }
}

/// Every piece but the last has exactly `n` items.
pub proof fn law_pieces_are_full<A>(s: Seq<A>, n: nat, i: int)
    requires
        n > 0,
        0 <= i < chunks(s, n).len() - 1,
    ensures
        chunks(s, n)[i].len() == n,
        chunks(s, n)[i] == s.subrange(i * n, i * n + n),
    decreases s.len(),
{
    let rest = s.skip(n as int);
    let all = chunks(s, n);
    if i == 0 {
        assert(0 * n == 0) by (nonlinear_arith);
        assert(all[0] =~= s.subrange(0, n as int));
    } else {
        law_pieces_are_full(rest, n, i - 1);
        assert(all[i] == chunks(rest, n)[i - 1]);
        assert((i - 1) * n + n == i * n) by (nonlinear_arith);
        assert((i - 1) * n >= 0) by (nonlinear_arith)
            requires
                i >= 1,
                n > 0,
        ;
        lemma_pieces_fit(rest, n, i - 1);
        assert(rest.subrange((i - 1) * n, (i - 1) * n + n) =~= s.subrange(i * n, i * n + n));
    }
}

proof fn lemma_pieces_fit<A>(s: Seq<A>, n: nat, i: int)
    requires
        n > 0,
        0 <= i < chunks(s, n).len() - 1,
    ensures
        i * n + n <= s.len(),
    decreases s.len(),
{
    let rest = s.skip(n as int);
    if i == 0 {
        assert(0 * n == 0) by (nonlinear_arith);
    } else {
        lemma_pieces_fit(rest, n, i - 1);
        assert((i - 1) * n + n == i * n) by (nonlinear_arith);
    }
}

} // verus!
