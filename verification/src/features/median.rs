//! The median of a few numbers, which are given by their order.

use vstd::prelude::*;

verus! {

/// How many of the numbers are smaller than `v`.
pub open spec fn below(keys: Seq<i64>, v: i64) -> nat
    decreases keys.len(),
{
    if keys.len() == 0 {
        0
    } else {
        below(keys.drop_last(), v) + (if keys.last() < v {
            1nat
        } else {
            0
        })
    }
}

/// How many of the numbers are not larger than `v`.
pub open spec fn upto(keys: Seq<i64>, v: i64) -> nat
    decreases keys.len(),
{
    if keys.len() == 0 {
        0
    } else {
        upto(keys.drop_last(), v) + (if keys.last() <= v {
            1nat
        } else {
            0
        })
    }
}

/// `v` stands at the place `r` when the numbers are sorted, counted from zero.
pub open spec fn has_rank(keys: Seq<i64>, v: i64, r: int) -> bool {
    below(keys, v) <= r < upto(keys, v)
}

/// Where the median is.
#[derive(Debug, Clone, Copy, PartialEq, Eq, Structural)]
pub enum Median {
    /// It is the number at this place.
    One(usize),
    /// It is the mean of the numbers at these places.
    Two(usize, usize),
}

/// The median of the numbers: of an odd count the middle one, of an even count
/// the two in the middle.
pub open spec fn is_median(keys: Seq<i64>, m: Median) -> bool {
    let n = keys.len() as int;
    match m {
        Median::One(i) => n % 2 == 1 && i < n && has_rank(keys, keys[i as int], n / 2),
        Median::Two(i, j) => n > 0 && n % 2 == 0 && i < n && j < n && has_rank(
            keys,
            keys[i as int],
            n / 2 - 1,
        ) && has_rank(keys, keys[j as int], n / 2),
    }
}

proof fn lemma_counts(keys: Seq<i64>, v: i64)
    ensures
        below(keys, v) <= upto(keys, v) <= keys.len(),
    decreases keys.len(),
{
    if keys.len() > 0 {
        lemma_counts(keys.drop_last(), v);
    }
}

proof fn lemma_all_upto(keys: Seq<i64>, v: i64)
    requires
        forall|i: int| 0 <= i < keys.len() ==> #[trigger] keys[i] <= v,
    ensures
        upto(keys, v) == keys.len(),
    decreases keys.len(),
{
    if keys.len() > 0 {
        let head = keys.drop_last();
        assert forall|i: int| 0 <= i < head.len() implies #[trigger] head[i] <= v by {
            assert(head[i] == keys[i]);
        }
        assert(keys.last() == keys[keys.len() - 1]);
        lemma_all_upto(head, v);
    }
}

/// What is smaller than `v` is not larger than `u`.
proof fn lemma_below_upto(keys: Seq<i64>, v: i64, u: i64)
    requires
        forall|i: int| 0 <= i < keys.len() && #[trigger] keys[i] < v ==> keys[i] <= u,
    ensures
        below(keys, v) <= upto(keys, u),
    decreases keys.len(),
{
    if keys.len() > 0 {
        let head = keys.drop_last();
        assert forall|i: int| 0 <= i < head.len() && #[trigger] head[i] < v implies head[i]
            <= u by {
            assert(head[i] == keys[i]);
        }
        assert(keys.last() == keys[keys.len() - 1]);
        lemma_below_upto(head, v, u);
    }
}

/// The largest of the numbers that are smaller than `v`.
proof fn lemma_largest_below(keys: Seq<i64>, v: i64) -> (m: int)
    requires
        below(keys, v) > 0,
    ensures
        0 <= m < keys.len(),
        keys[m] < v,
        forall|i: int| 0 <= i < keys.len() && #[trigger] keys[i] < v ==> keys[i] <= keys[m],
    decreases keys.len(),
{
    let head = keys.drop_last();
    let last = keys.len() - 1;
    if below(head, v) > 0 {
        let h = lemma_largest_below(head, v);
        assert(head[h] == keys[h]);
        let m = if keys[last] < v && keys[h] < keys[last] {
            last
        } else {
            h
        };
        assert forall|i: int| 0 <= i < keys.len() && #[trigger] keys[i] < v implies keys[i]
            <= keys[m] by {
            if i < last {
                assert(head[i] == keys[i]);
            }
        }
        m
    } else {
        assert forall|i: int| 0 <= i < keys.len() && #[trigger] keys[i] < v implies keys[i]
            <= keys[last] by {
            if i < last {
                lemma_none_below(head, v, i);
                assert(head[i] == keys[i]);
            }
        }
        last
    }
}

proof fn lemma_none_below(keys: Seq<i64>, v: i64, i: int)
    requires
        below(keys, v) == 0,
        0 <= i < keys.len(),
    ensures
        keys[i] >= v,
    decreases keys.len(),
{
    if i < keys.len() - 1 {
        lemma_none_below(keys.drop_last(), v, i);
        assert(keys.drop_last()[i] == keys[i]);
    }
}

/// At most one of the numbers is not larger than `v` if all but one are.
proof fn lemma_upto_one(keys: Seq<i64>, v: i64, x: int)
    requires
        forall|i: int| 0 <= i < keys.len() && i != x ==> #[trigger] keys[i] > v,
    ensures
        upto(keys, v) <= 1,
        !(0 <= x < keys.len()) ==> upto(keys, v) == 0,
    decreases keys.len(),
{
    if keys.len() > 0 {
        let head = keys.drop_last();
        assert forall|i: int| 0 <= i < head.len() && i != x implies #[trigger] head[i] > v by {
            assert(head[i] == keys[i]);
        }
        assert(keys.last() == keys[keys.len() - 1]);
        lemma_upto_one(head, v, x);
    }
}

/// All of the numbers but at most one are smaller than `v` if all but one are.
proof fn lemma_below_all_but_one(keys: Seq<i64>, v: i64, x: int)
    requires
        forall|i: int| 0 <= i < keys.len() && i != x ==> #[trigger] keys[i] < v,
    ensures
        below(keys, v) + 1 >= keys.len(),
        !(0 <= x < keys.len()) ==> below(keys, v) == keys.len(),
    decreases keys.len(),
{
    if keys.len() > 0 {
        let head = keys.drop_last();
        assert forall|i: int| 0 <= i < head.len() && i != x implies #[trigger] head[i] < v by {
            assert(head[i] == keys[i]);
        }
        assert(keys.last() == keys[keys.len() - 1]);
        lemma_below_all_but_one(head, v, x);
    }
}

/// What a median of the numbers is made of.
pub open spec fn takes(m: Median, i: int) -> bool {
    match m {
        Median::One(a) => i == a,
        Median::Two(a, b) => i == a || i == b,
    }
}

/// One number that is far off cannot move the median: if all numbers but the one
/// at `x` lie between `lo` and `hi`, so does what the median is made of.
pub proof fn law_median_resists_one_outlier(
    keys: Seq<i64>,
    m: Median,
    x: int,
    lo: i64,
    hi: i64,
    i: int,
)
    requires
        keys.len() >= 3,
        is_median(keys, m),
        forall|k: int| 0 <= k < keys.len() && k != x ==> lo <= #[trigger] keys[k] <= hi,
        takes(m, i),
    ensures
        lo <= keys[i] <= hi,
{
    let v = keys[i];
    if v < lo {
        lemma_upto_one(keys, v, x);
    }
    if v > hi {
        lemma_below_all_but_one(keys, v, x);
    }
}

/// Numbers are counted one by one.
proof fn lemma_counts_are_lengths(keys: Seq<i64>, v: i64)
    ensures
        below(keys, v) == keys.filter(|k: i64| k < v).len(),
        upto(keys, v) == keys.filter(|k: i64| k <= v).len(),
    decreases keys.len(),
{
    reveal(Seq::filter);
    if keys.len() > 0 {
        lemma_counts_are_lengths(keys.drop_last(), v);
    }
}

/// A number stands at the place `r` of the sorted numbers if at most `r` of them
/// are smaller, and more than `r` are not larger.
pub proof fn law_place_counts_the_smaller(keys: Seq<i64>, v: i64, r: int)
    ensures
        has_rank(keys, v, r) <==> keys.filter(|k: i64| k < v).len() <= r && keys.filter(
            |k: i64| k <= v,
        ).len() > r,
{
    lemma_counts_are_lengths(keys, v);
}

/// Half of the numbers lie on each side of the median. Of an odd count the
/// median is one of the numbers, of an even count it lies between two: at most
/// half of the numbers are smaller than the one above the middle, at most half
/// are larger than the one below it, and at least half are not larger than the
/// one below it.
pub proof fn law_median_halves_the_numbers(keys: Seq<i64>, m: Median)
    requires
        is_median(keys, m),
    ensures
        ({
            let n = keys.len() as int;
            match m {
                Median::One(i) => {
                    let v = keys[i as int];
                    &&& n % 2 == 1 && i < n
                    &&& 2 * keys.filter(|k: i64| k < v).len() < n
                    &&& 2 * keys.filter(|k: i64| k <= v).len() > n
                },
                Median::Two(i, j) => {
                    let a = keys[i as int];
                    let b = keys[j as int];
                    &&& n % 2 == 0 && i < n && j < n
                    &&& 2 * keys.filter(|k: i64| k < a).len() < n
                    &&& 2 * keys.filter(|k: i64| k <= a).len() >= n
                    &&& 2 * keys.filter(|k: i64| k < b).len() <= n
                    &&& 2 * keys.filter(|k: i64| k <= b).len() > n
                },
            }
        }),
{
    match m {
        Median::One(i) => {
            lemma_counts_are_lengths(keys, keys[i as int]);
        },
        Median::Two(i, j) => {
            lemma_counts_are_lengths(keys, keys[i as int]);
            lemma_counts_are_lengths(keys, keys[j as int]);
        },
    }
}

fn count(keys: &Vec<i64>, v: i64) -> (r: usize)
    ensures
        r == upto(keys@, v),
{
    let mut n: usize = 0;
    let mut i: usize = 0;
    assert(keys@.take(0) =~= Seq::empty());
    while i < keys.len()
        invariant
            i <= keys@.len(),
            n <= i,
            n == upto(keys@.take(i as int), v),
        decreases keys@.len() - i,
    {
        assert(keys@.take(i + 1).drop_last() =~= keys@.take(i as int));
        if keys[i] <= v {
            n = n + 1;
        }
        i = i + 1;
    }
    assert(keys@.take(keys@.len() as int) =~= keys@);
    n
}

proof fn lemma_largest_counts_all(keys: Seq<i64>) -> (m: int)
    requires
        keys.len() > 0,
    ensures
        0 <= m < keys.len(),
        upto(keys, keys[m]) == keys.len(),
{
    let m = lemma_largest(keys);
    lemma_all_upto(keys, keys[m]);
    m
}

proof fn lemma_largest(keys: Seq<i64>) -> (m: int)
    requires
        keys.len() > 0,
    ensures
        0 <= m < keys.len(),
        forall|i: int| 0 <= i < keys.len() ==> #[trigger] keys[i] <= keys[m],
    decreases keys.len(),
{
    let last = keys.len() - 1;
    if last == 0 {
        0
    } else {
        let head = keys.drop_last();
        let h = lemma_largest(head);
        let m = if keys[h] < keys[last] {
            last
        } else {
            h
        };
        assert forall|i: int| 0 <= i < keys.len() implies #[trigger] keys[i] <= keys[m] by {
            if i < last {
                assert(head[i] == keys[i]);
            }
        }
        m
    }
}

/// Finds the number at the place `r` of the sorted numbers.
pub fn at_rank(keys: &Vec<i64>, r: usize) -> (i: usize)
    requires
        r < keys@.len(),
    ensures
        i < keys@.len(),
        has_rank(keys@, keys@[i as int], r as int),
{
    let mut best: Option<usize> = None;
    let mut i: usize = 0;
    while i < keys.len()
        invariant
            i <= keys@.len(),
            (match best {
                Some(b) => b < i && upto(keys@, keys@[b as int]) > r && forall|k: int|
                    0 <= k < i && upto(keys@, #[trigger] keys@[k]) > r ==> keys@[b as int]
                        <= keys@[k],
                None => forall|k: int| 0 <= k < i ==> upto(keys@, #[trigger] keys@[k]) <= r,
            }),
        decreases keys@.len() - i,
    {
        if count(keys, keys[i]) > r {
            match best {
                Some(b) => {
                    if keys[i] < keys[b] {
                        best = Some(i);
                    }
                },
                None => {
                    best = Some(i);
                },
            }
        }
        i = i + 1;
    }
    proof {
        let m = lemma_largest_counts_all(keys@);
        assert(upto(keys@, keys@[m]) > r);
    }
    let b: usize = best.unwrap();
    proof {
        let v = keys@[b as int];
        if below(keys@, v) > r {
            let u = lemma_largest_below(keys@, v);
            lemma_below_upto(keys@, v, keys@[u]);
            assert(upto(keys@, keys@[u]) > r);
        }
    }
    b
}

/// Finds the median; `None` if there are no numbers.
pub fn median(keys: &Vec<i64>) -> (r: Option<Median>)
    ensures
        r is None <==> keys@.len() == 0,
        r is Some ==> is_median(keys@, r.unwrap()),
{
    let n: usize = keys.len();
    if n == 0 {
        None
    } else if n % 2 == 1 {
        Some(Median::One(at_rank(keys, n / 2)))
    } else {
        Some(Median::Two(at_rank(keys, n / 2 - 1), at_rank(keys, n / 2)))
    }
}

} // verus!
