//! Mean, median and mode of a list of numbers.

use vstd::prelude::*;

verus! {

/// The sum of the numbers of `s`.
pub open spec fn sum(s: Seq<i32>) -> int
    decreases s.len(),
{
    if s.len() == 0 {
        0
    } else {
        sum(s.drop_last()) + s.last()
    }
}

/// The quotient of `a` by a positive `b`, rounded towards zero.
pub open spec fn quotient(a: int, b: int) -> int {
    if a >= 0 {
        a / b
    } else {
        -((-a) / b)
    }
}

/// The sum of `n` numbers lies between `n` times the least and `n` times
/// the greatest `i32`.
pub proof fn lemma_sum_bounds(s: Seq<i32>)
    ensures
        s.len() * i32::MIN <= sum(s) <= s.len() * i32::MAX,
    decreases s.len(),
{
    if s.len() > 0 {
        lemma_sum_bounds(s.drop_last());
        assert(s.len() * i32::MIN == (s.len() - 1) * i32::MIN + i32::MIN) by (nonlinear_arith);
        assert(s.len() * i32::MAX == (s.len() - 1) * i32::MAX + i32::MAX) by (nonlinear_arith);
    }
}

/// The mean of the numbers of `v`, rounded towards zero.
pub fn list_mean(v: &Vec<i32>) -> (mean: i32)
    requires
        v@.len() > 0,
    ensures
        mean == quotient(sum(v@), v@.len() as int),
{
    let mut total: i128 = 0;
    let mut i: usize = 0;
    while i < v.len()
        invariant
            i <= v@.len(),
            total == sum(v@.take(i as int)),
        decreases v@.len() - i,
    {
        proof {
            lemma_sum_bounds(v@.take(i as int));
            assert(v@.take(i + 1).drop_last() =~= v@.take(i as int));
            assert(i * i32::MAX <= usize::MAX * i32::MAX) by (nonlinear_arith)
                requires
                    i <= usize::MAX,
            ;
            assert(i * i32::MIN >= usize::MAX * i32::MIN) by (nonlinear_arith)
                requires
                    i <= usize::MAX,
            ;
        }
        total = total + v[i] as i128;
        i += 1;
    }
    proof {
        assert(v@.take(v@.len() as int) =~= v@);
        lemma_sum_bounds(v@);
    }
    let count: i128 = v.len() as i128;
    let mean: i128 = if total >= 0 {
        total / count
    } else {
        -((-total) / count)
    };
    proof {
        let n = v@.len() as int;
        let t = sum(v@);
        assert(n * i32::MIN <= t <= n * i32::MAX);
        if t >= 0 {
            assert(t / n <= i32::MAX) by (nonlinear_arith)
                requires
                    0 <= t <= n * i32::MAX,
                    n > 0,
            ;
            assert(t / n >= 0) by (nonlinear_arith)
                requires
                    0 <= t,
                    n > 0,
            ;
        } else {
            assert((-t) / n <= -(i32::MIN as int)) by (nonlinear_arith)
                requires
                    0 <= -t <= n * (-(i32::MIN as int)),
                    n > 0,
            ;
            assert((-t) / n >= 0) by (nonlinear_arith)
                requires
                    0 <= -t,
                    n > 0,
            ;
        }
    }
    mean as i32
}

/// The numbers of `s` do not decrease.
pub open spec fn ascending(s: Seq<i32>) -> bool {
    forall|i: int, j: int| 0 <= i <= j < s.len() ==> s[i] <= s[j]
}

/// The first `n` numbers of `s` do not decrease.
pub open spec fn ascending_to(s: Seq<i32>, n: int) -> bool {
    forall|i: int, j: int| 0 <= i <= j < n ==> s[i] <= s[j]
}

/// Sorts the numbers: afterwards they are the same numbers, each as often
/// as before, in ascending order.
pub fn sort_numbers(v: &mut Vec<i32>)
    ensures
        final(v)@.to_multiset() == old(v)@.to_multiset(),
        ascending(final(v)@),
{
    let n = v.len();
    let mut i: usize = 1;
    while i < n
        invariant
            v@.len() == n,
            1 <= i,
            v@.to_multiset() == old(v)@.to_multiset(),
            ascending_to(v@, if i <= n {
                i as int
            } else {
                n as int
            }),
        decreases n - i,
    {
        let ghost before = v@;
        let x = v.remove(i);
        let ghost without = v@;
        let mut j: usize = i;
        while j > 0 && v[j - 1] > x
            invariant
                j <= i < n,
                v@ == without,
                without.len() == n - 1,
                forall|k: int| j <= k < i ==> without[k] > x,
            decreases j,
        {
            j -= 1;
        }
        v.insert(j, x);
        proof {
            broadcast use vstd::multiset::group_multiset_axioms;

            vstd::seq_lib::to_multiset_remove(before, i as int);
            vstd::seq_lib::to_multiset_insert(without, j as int, x);
            before.to_multiset_ensures();
            assert(before[i as int] == x);
            assert(before.contains(x));
            assert(before.to_multiset().count(x) > 0);
            assert(v@.to_multiset() =~= before.to_multiset());
            assert forall|a: int, b: int| 0 <= a <= b < i + 1 implies v@[a] <= v@[b] by {
                let left = if a < j {
                    without[a]
                } else if a == j {
                    x
                } else {
                    without[a - 1]
                };
                let right = if b < j {
                    without[b]
                } else if b == j {
                    x
                } else {
                    without[b - 1]
                };
                assert(v@[a] == left && v@[b] == right);
                if a < j {
                    assert(without[a] == before[a]);
                    assert(before[a] <= before[j - 1]);
                    assert(without[j - 1] == before[j - 1]);
                }
                if b > j {
                    assert(without[b - 1] == before[b - 1]);
                }
                if a > j {
                    assert(without[a - 1] == before[a - 1]);
                }
            }
        }
        i += 1;
    }
}

/// What `list_median` picks from `sorted`, a list in ascending order of at
/// least two numbers: of an even number of them the mean of the two in the
/// middle, rounded towards zero; of an odd number the one after the middle.
pub open spec fn median_of(sorted: Seq<i32>) -> int {
    let n = sorted.len() as int;
    if n % 2 == 0 {
        quotient(sorted[(n - 1) / 2] + sorted[(n + 1) / 2], 2)
    } else {
        sorted[(n + 1) / 2] as int
    }
}

/// Sorts the numbers and picks the median as `median_of` describes it.
pub fn list_median(v: &mut Vec<i32>) -> (median: i32)
    requires
        old(v)@.len() >= 2,
    ensures
        final(v)@.to_multiset() == old(v)@.to_multiset(),
        ascending(final(v)@),
        median == median_of(final(v)@),
{
    sort_numbers(v);
    proof {
        v@.to_multiset_ensures();
        old(v)@.to_multiset_ensures();
    }
    let n = v.len();
    if n % 2 == 0 {
        let low: i64 = v[(n - 1) / 2] as i64;
        let high: i64 = v[n / 2] as i64;
        let both = low + high;
        let half: i64 = if both >= 0 {
            both / 2
        } else {
            -((-both) / 2)
        };
        return half as i32;
    }
    v[n / 2 + 1]
}

/// How often `x` occurs in `s`.
pub open spec fn occurrences(s: Seq<i32>, x: i32) -> nat
    decreases s.len(),
{
    if s.len() == 0 {
        0
    } else {
        occurrences(s.drop_last(), x) + if s.last() == x {
            1nat
        } else {
            0nat
        }
    }
}

/// A number occurs in a list at most as often as the list is long, and at
/// least once if it is in it.
pub proof fn lemma_occurrences(s: Seq<i32>, x: i32)
    ensures
        occurrences(s, x) <= s.len(),
        s.contains(x) <==> occurrences(s, x) > 0,
    decreases s.len(),
{
    if s.len() > 0 {
        lemma_occurrences(s.drop_last(), x);
        if s.contains(x) && s.last() != x {
            let i = choose|i: int| 0 <= i < s.len() && s[i] == x;
            assert(s.drop_last()[i] == x);
        }
        if s.drop_last().contains(x) {
            let i = choose|i: int| 0 <= i < s.drop_last().len() && s.drop_last()[i] == x;
            assert(s[i] == x);
        }
        if s.last() == x {
            assert(s[s.len() - 1] == x);
        }
    }
}

/// How often `x` occurs in `v`.
pub fn count_of(v: &Vec<i32>, x: i32) -> (n: usize)
    ensures
        n == occurrences(v@, x),
{
    let mut n: usize = 0;
    let mut i: usize = 0;
    while i < v.len()
        invariant
            i <= v@.len(),
            n == occurrences(v@.take(i as int), x),
            n <= i,
        decreases v@.len() - i,
    {
        proof {
            assert(v@.take(i + 1).drop_last() =~= v@.take(i as int));
        }
        if v[i] == x {
            n += 1;
        }
        i += 1;
    }
    proof {
        assert(v@.take(v@.len() as int) =~= v@);
    }
    n
}

/// A mode of the list: a number of it that none occurs more often than. Of
/// several, the one that comes first. The mode of the empty list is 0.
pub fn list_mode(v: &Vec<i32>) -> (mode: i32)
    ensures
        v@.len() == 0 ==> mode == 0,
        v@.len() > 0 ==> v@.contains(mode),
        forall|x: i32| occurrences(v@, x) <= occurrences(v@, mode) || v@.len() == 0,
        forall|i: int|
            0 <= i < v@.len() && occurrences(v@, v@[i]) == occurrences(v@, mode) ==> exists|
                j: int,
            | 0 <= j <= i && v@[j] == mode,
{
    let mut mode: i32 = 0;
    let mut mode_count: usize = 0;
    let mut i: usize = 0;
    while i < v.len()
        invariant
            i <= v@.len(),
            mode_count == 0 <==> i == 0,
            i == 0 ==> mode == 0,
            i > 0 ==> mode_count == occurrences(v@, mode),
            i > 0 ==> exists|j: int| 0 <= j < i && v@[j] == mode,
            forall|k: int| 0 <= k < i ==> occurrences(v@, v@[k]) <= mode_count,
            forall|k: int|
                0 <= k < i && occurrences(v@, v@[k]) == mode_count ==> exists|j: int|
                    0 <= j <= k && v@[j] == mode,
        decreases v@.len() - i,
    {
        let count = count_of(v, v[i]);
        proof {
            lemma_occurrences(v@, v@[i as int]);
            assert(v@.contains(v@[i as int]));
        }
        if count > mode_count {
            mode_count = count;
            mode = v[i];
        }
        i += 1;
    }
    proof {
        assert forall|x: i32| occurrences(v@, x) <= occurrences(v@, mode) || v@.len()
            == 0 by {
            lemma_occurrences(v@, x);
            if v@.contains(x) {
                let k = choose|k: int| 0 <= k < v@.len() && v@[k] == x;
                assert(occurrences(v@, v@[k]) <= mode_count);
            }
        }
    }
    mode
}

} // verus!
