//! Which items a sliding time window keeps.

use vstd::prelude::*;

verus! {

/// The item is more than `window` older than the newest one.
pub open spec fn too_old(newest: i64, at: i64, window: i64) -> bool {
    newest - at > window
}

/// What a window of `window` milliseconds keeps of `s`: items leave at the
/// front as long as the one there is too old. `at` is the time of an item.
pub open spec fn kept<A>(s: Seq<A>, at: spec_fn(A) -> i64, window: i64) -> Seq<A>
    decreases s.len(),
{
    if s.len() > 0 && too_old(at(s.last()), at(s[0]), window) {
        kept(s.drop_first(), at, window)
    } else {
        s
    }
}

/// The items came in the order of their times.
pub open spec fn in_order<A>(s: Seq<A>, at: spec_fn(A) -> i64) -> bool {
    forall|i: int, j: int| 0 <= i <= j < s.len() ==> at(#[trigger] s[i]) <= at(#[trigger] s[j])
}

/// What is kept is the end of what there was, and nothing at its front is too
/// old.
pub proof fn law_the_end_is_kept<A>(s: Seq<A>, at: spec_fn(A) -> i64, window: i64)
    ensures
        kept(s, at, window).len() <= s.len(),
        kept(s, at, window) == s.skip(s.len() - kept(s, at, window).len()),
        kept(s, at, window).len() > 0 ==> !too_old(
            at(s.last()),
            at(kept(s, at, window)[0]),
            window,
        ),
    decreases s.len(),
{
    if s.len() > 0 && too_old(at(s.last()), at(s[0]), window) {
        let rest = s.drop_first();
        law_the_end_is_kept(rest, at, window);
        let k = kept(rest, at, window);
        assert(s.skip(s.len() - k.len()) =~= rest.skip(rest.len() - k.len()));
    } else {
        assert(s.skip(0) =~= s);
    }
}

/// Items leave at the front only, and exactly up to the first that is not more
/// than `window` older than the newest: each item that left is older than that,
/// and the first that stays is not.
pub proof fn law_only_the_old_leave<A>(s: Seq<A>, at: spec_fn(A) -> i64, window: i64)
    ensures
        ({
            let k = s.len() - kept(s, at, window).len();
            &&& 0 <= k <= s.len()
            &&& kept(s, at, window) == s.skip(k)
            &&& forall|i: int| 0 <= i < k ==> at(s.last()) - at(#[trigger] s[i]) > window
            &&& k < s.len() ==> at(s.last()) - at(s[k]) <= window
        }),
    decreases s.len(),
{
    if s.len() > 0 && too_old(at(s.last()), at(s[0]), window) {
        let rest = s.drop_first();
        law_only_the_old_leave(rest, at, window);
        let left = kept(rest, at, window);
        let k = s.len() - left.len();
        assert(s.skip(k) =~= rest.skip(k - 1));
        if rest.len() > 0 {
            assert(rest.last() == s.last());
        }
        assert forall|i: int| 0 <= i < k implies at(s.last()) - at(#[trigger] s[i]) > window by {
            if i > 0 {
                assert(rest[i - 1] == s[i]);
            }
        }
    } else {
        assert(s.skip(0) =~= s);
    }
}

/// The newest item stays, whatever its time, unless the window is negative.
pub proof fn law_the_newest_stays<A>(s: Seq<A>, at: spec_fn(A) -> i64, window: i64)
    requires
        s.len() > 0,
        window >= 0,
    ensures
        kept(s, at, window).len() > 0,
        kept(s, at, window).last() == s.last(),
    decreases s.len(),
{
    if too_old(at(s.last()), at(s[0]), window) {
        law_the_newest_stays(s.drop_first(), at, window);
    }
}

/// Of items that came in the order of their times, those are kept that are not
/// too old, and no others.
pub proof fn law_window_of_ordered_items<A>(s: Seq<A>, at: spec_fn(A) -> i64, window: i64)
    requires
        in_order(s, at),
    ensures
        kept(s, at, window) == s.filter(|a: A| !too_old(at(s.last()), at(a), window)),
    decreases s.len(),
{
    let newest = at(s.last());
    let fresh = |a: A| !too_old(newest, at(a), window);
    if s.len() == 0 {
        reveal(Seq::filter);
    } else {
        let rest = s.drop_first();
        if too_old(newest, at(s[0]), window) {
            if rest.len() > 0 {
                assert(in_order(rest, at)) by {
                    assert forall|i: int, j: int| 0 <= i <= j < rest.len() implies at(
                        #[trigger] rest[i],
                    ) <= at(#[trigger] rest[j]) by {
                        assert(rest[i] == s[i + 1] && rest[j] == s[j + 1]);
                    }
                }
                law_window_of_ordered_items(rest, at, window);
            } else {
                reveal(Seq::filter);
                assert(kept(rest, at, window) =~= Seq::empty());
                assert(rest.filter(fresh) =~= Seq::empty());
            }
            assert(s =~= seq![s[0]] + rest);
            Seq::filter_distributes_over_add(seq![s[0]], rest, fresh);
            assert(seq![s[0]].filter(fresh) =~= Seq::empty()) by {
                reveal(Seq::filter);
                assert(seq![s[0]].drop_last() =~= Seq::empty());
                assert(seq![s[0]].drop_last().filter(fresh) =~= Seq::empty());
            }
            assert(s.filter(fresh) =~= rest.filter(fresh));
        } else {
            assert forall|i: int| 0 <= i < s.len() implies fresh(#[trigger] s[i]) by {
                assert(at(s[0]) <= at(s[i]));
            }
            lemma_all_pass(s, fresh);
        }
    }
}

/// Of items that came in the order of their times, those are kept whose time is
/// at most `window` before that of the newest.
pub proof fn law_window_reaches_back<A>(s: Seq<A>, at: spec_fn(A) -> i64, window: i64)
    requires
        in_order(s, at),
    ensures
        kept(s, at, window) == s.filter(|a: A| at(a) >= at(s.last()) - window),
{
    law_window_of_ordered_items(s, at, window);
    let newest = at(s.last());
    assert((|a: A| !too_old(newest, at(a), window)) =~= (|a: A| at(a) >= newest - window));
}

/// Items that left the window would have left it later too, if items come in
/// the order of their times: a window that is fed item by item keeps what it
/// would keep of all of them at once.
pub proof fn law_item_by_item_is_all_at_once<A>(
    s: Seq<A>,
    new: A,
    at: spec_fn(A) -> i64,
    window: i64,
)
    requires
        in_order(s.push(new), at),
    ensures
        kept(kept(s, at, window).push(new), at, window) == kept(s.push(new), at, window),
    decreases s.len(),
{
    if s.len() > 0 && too_old(at(s.last()), at(s[0]), window) {
        let all = s.push(new);
        let rest = s.drop_first();
        assert(all[s.len() - 1] == s.last() && all[s.len() as int] == new && all[0] == s[0]);
        assert(all.drop_first() =~= rest.push(new));
        assert forall|i: int, j: int| 0 <= i <= j < rest.push(new).len() implies at(
            #[trigger] rest.push(new)[i],
        ) <= at(#[trigger] rest.push(new)[j]) by {
            assert(rest.push(new)[i] == all[i + 1] && rest.push(new)[j] == all[j + 1]);
        }
        law_item_by_item_is_all_at_once(rest, new, at, window);
    }
}

proof fn lemma_all_pass<A>(s: Seq<A>, f: spec_fn(A) -> bool)
    requires
        forall|i: int| 0 <= i < s.len() ==> f(#[trigger] s[i]),
    ensures
        s.filter(f) == s,
    decreases s.len(),
{
    reveal(Seq::filter);
    if s.len() > 0 {
        lemma_all_pass(s.drop_last(), f);
        assert(s.filter(f) =~= s.drop_last().push(s.last()));
    }
}

/// Whether an item of the time `at` is too old for a window of `window`
/// milliseconds that ends at `newest`.
pub fn is_too_old(newest: i64, at: i64, window: i64) -> (r: bool)
    ensures
        r == too_old(newest, at, window),
{
    newest as i128 - at as i128 > window as i128
}

} // verus!
