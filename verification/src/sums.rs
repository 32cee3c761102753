//! Sums and counts over sequences.
use vstd::prelude::*;

verus! {

/// Sum of a measure over a sequence.
pub open spec fn total<A>(s: Seq<A>, f: spec_fn(A) -> int) -> int
    decreases s.len(),
{
    if s.len() == 0 {
        0
    } else {
        total(s.drop_last(), f) + f(s.last())
    }
}

/// Number of elements that satisfy a predicate.
pub open spec fn count<A>(s: Seq<A>, p: spec_fn(A) -> bool) -> int {
    total(s, |a: A| if p(a) { 1int } else { 0int })
}

pub proof fn total_push<A>(s: Seq<A>, a: A, f: spec_fn(A) -> int)
    ensures
        total(s.push(a), f) == total(s, f) + f(a),
{
    assert(s.push(a).drop_last() =~= s);
}

pub proof fn total_append<A>(s: Seq<A>, t: Seq<A>, f: spec_fn(A) -> int)
    ensures
        total(s + t, f) == total(s, f) + total(t, f),
    decreases t.len(),
{
    if t.len() == 0 {
        assert(s + t =~= s);
    } else {
        total_append(s, t.drop_last(), f);
        assert((s + t).drop_last() =~= s + t.drop_last());
    }
}

pub proof fn total_update<A>(s: Seq<A>, i: int, a: A, f: spec_fn(A) -> int)
    requires
        0 <= i < s.len(),
    ensures
        total(s.update(i, a), f) == total(s, f) - f(s[i]) + f(a),
    decreases s.len(),
{
    if i == s.len() - 1 {
        assert(s.update(i, a).drop_last() =~= s.drop_last());
    } else {
        total_update(s.drop_last(), i, a, f);
        assert(s.update(i, a).drop_last() =~= s.drop_last().update(i, a));
    }
}

pub proof fn total_remove<A>(s: Seq<A>, i: int, f: spec_fn(A) -> int)
    requires
        0 <= i < s.len(),
    ensures
        total(s.remove(i), f) == total(s, f) - f(s[i]),
{
    let left = s.subrange(0, i);
    let right = s.subrange(i + 1, s.len() as int);
    total_append(left, right, f);
    assert(s.remove(i) =~= left + right);
    total_push(left, s[i], f);
    total_append(left.push(s[i]), right, f);
    assert(s =~= left.push(s[i]) + right);
}

/// Two sequences whose measures agree position by position have the same sum.
pub proof fn total_pointwise<A, B>(s: Seq<A>, t: Seq<B>, f: spec_fn(A) -> int, g: spec_fn(B) -> int)
    requires
        s.len() == t.len(),
        forall|i: int| 0 <= i < s.len() ==> f(#[trigger] s[i]) == g(t[i]),
    ensures
        total(s, f) == total(t, g),
    decreases s.len(),
{
    if s.len() > 0 {
        assert(f(s[s.len() - 1]) == g(t[s.len() - 1]));
        assert forall|i: int| 0 <= i < s.drop_last().len() implies f(
            #[trigger] s.drop_last()[i],
        ) == g(t.drop_last()[i]) by {
            assert(f(s[i]) == g(t[i]));
        }
        total_pointwise(s.drop_last(), t.drop_last(), f, g);
    }
}

/// A sum of nonnegative measures is at least each of them.
pub proof fn total_bounds<A>(s: Seq<A>, f: spec_fn(A) -> int)
    requires
        forall|i: int| 0 <= i < s.len() ==> f(#[trigger] s[i]) >= 0,
    ensures
        total(s, f) >= 0,
        forall|i: int| 0 <= i < s.len() ==> f(#[trigger] s[i]) <= total(s, f),
    decreases s.len(),
{
    if s.len() > 0 {
        assert(f(s[s.len() - 1]) >= 0);
        let t = s.drop_last();
        assert forall|i: int| 0 <= i < t.len() implies f(#[trigger] t[i]) >= 0 by {
            assert(t[i] == s[i]);
        }
        total_bounds(t, f);
        assert forall|i: int| 0 <= i < s.len() implies f(#[trigger] s[i]) <= total(s, f) by {
            if i < t.len() {
                assert(t[i] == s[i]);
            }
        }
    }
}

/// Measures that are zero everywhere add up to zero.
pub proof fn total_zero<A>(s: Seq<A>, f: spec_fn(A) -> int)
    requires
        forall|i: int| 0 <= i < s.len() ==> f(#[trigger] s[i]) == 0,
    ensures
        total(s, f) == 0,
    decreases s.len(),
{
    if s.len() > 0 {
        assert(f(s[s.len() - 1]) == 0);
        let t = s.drop_last();
        assert forall|i: int| 0 <= i < t.len() implies f(#[trigger] t[i]) == 0 by {
            assert(t[i] == s[i]);
        }
        total_zero(t, f);
    }
}

/// Measures of at most one add up to at most the length.
pub proof fn total_at_most<A>(s: Seq<A>, f: spec_fn(A) -> int)
    requires
        forall|i: int| 0 <= i < s.len() ==> f(#[trigger] s[i]) <= 1,
    ensures
        total(s, f) <= s.len(),
    decreases s.len(),
{
    if s.len() > 0 {
        assert(f(s[s.len() - 1]) <= 1);
        let t = s.drop_last();
        assert forall|i: int| 0 <= i < t.len() implies f(#[trigger] t[i]) <= 1 by {
            assert(t[i] == s[i]);
        }
        total_at_most(t, f);
    }
}

/// A measure that is one where a predicate holds and zero elsewhere counts what
/// satisfies it.
pub proof fn total_is_filtered<A>(s: Seq<A>, f: spec_fn(A) -> int, p: spec_fn(A) -> bool)
    requires
        forall|a: A| #[trigger] f(a) == (if p(a) {
            1int
        } else {
            0int
        }),
    ensures
        total(s, f) == s.filter(p).len(),
    decreases s.len(),
{
    reveal(Seq::filter);
    if s.len() > 0 {
        total_is_filtered(s.drop_last(), f, p);
    }
}

} // verus!
