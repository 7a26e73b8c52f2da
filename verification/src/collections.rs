//! Verified helpers over `Vec`: filtering, searching and stable sorting by a
//! caller-supplied predicate or order. Each takes the predicate twice, once to
//! run and once as the spec function that the contract speaks of.

use vstd::prelude::*;

verus! {

/// `f` decides the spec predicate `p` on every value.
pub open spec fn decides<T, F: Fn(&T) -> bool>(f: F, p: spec_fn(T) -> bool) -> bool {
    &&& forall|t: &T| #[trigger] f.requires((t,))
    &&& forall|t: &T, b: bool| #[trigger] f.ensures((t,), b) ==> b == p(*t)
}

/// `f` decides the spec relation `le` on every pair.
pub open spec fn decides_order<T, F: Fn(&T, &T) -> bool>(
    f: F,
    le: spec_fn(T, T) -> bool,
) -> bool {
    &&& forall|a: &T, b: &T| #[trigger] f.requires((a, b))
    &&& forall|a: &T, b: &T, r: bool| #[trigger] f.ensures((a, b), r) ==> r == le(*a, *b)
}

/// A clone of a `T` is spec-equal to what was cloned.
pub open spec fn clones_exactly<T: Clone>() -> bool {
    forall|a: T, b: T| #[trigger] cloned::<T>(a, b) ==> a == b
}

/// Filtering one element more than before.
pub proof fn lemma_filter_push<T>(s: Seq<T>, x: T, p: spec_fn(T) -> bool)
    ensures
        s.push(x).filter(p) == (if p(x) {
            s.filter(p).push(x)
        } else {
            s.filter(p)
        }),
{
    reveal(Seq::filter);
    assert(s.push(x).drop_last() =~= s);
}

/// Filtering a prefix one element longer.
pub proof fn lemma_filter_take<T>(s: Seq<T>, i: int, p: spec_fn(T) -> bool)
    requires
        0 <= i < s.len(),
    ensures
        s.take(i + 1).filter(p) == (if p(s[i]) {
            s.take(i).filter(p).push(s[i])
        } else {
            s.take(i).filter(p)
        }),
{
    assert(s.take(i + 1) =~= s.take(i).push(s[i]));
    lemma_filter_push(s.take(i), s[i], p);
}

/// A filter never grows a sequence.
pub proof fn lemma_filter_len<T>(s: Seq<T>, p: spec_fn(T) -> bool)
    ensures
        s.filter(p).len() <= s.len(),
    decreases s.len(),
{
    reveal(Seq::filter);
    if s.len() > 0 {
        lemma_filter_len(s.drop_last(), p);
    }
}

/// Every element of a filtered sequence satisfies the predicate and comes from
/// the sequence; every element that satisfies it is kept.
pub proof fn lemma_filter_members<T>(s: Seq<T>, p: spec_fn(T) -> bool)
    ensures
        forall|x: T| #[trigger] s.filter(p).contains(x) <==> s.contains(x) && p(x),
    decreases s.len(),
{
    reveal(Seq::filter);
    if s.len() > 0 {
        let front = s.drop_last();
        lemma_filter_members(front, p);
        assert(s =~= front.push(s.last()));
        assert forall|x: T| #[trigger] s.filter(p).contains(x) <==> s.contains(x) && p(x) by {
            let kept = front.filter(p);
            assert(front.push(s.last()).contains(x) <==> front.contains(x) || x == s.last()) by {
                if front.contains(x) {
                    let i = front.index_of(x);
                    assert(front.push(s.last())[i] == x);
                }
                if x == s.last() {
                    assert(front.push(s.last())[front.len() as int] == x);
                }
            }
            assert(kept.push(s.last()).contains(x) <==> kept.contains(x) || x == s.last()) by {
                if kept.contains(x) {
                    let i = kept.index_of(x);
                    assert(kept.push(s.last())[i] == x);
                }
                if x == s.last() {
                    assert(kept.push(s.last())[kept.len() as int] == x);
                }
            }
        }
    }
}

/// Keeps the elements that satisfy the predicate, in order.
pub fn retain<T, F: Fn(&T) -> bool>(v: &mut Vec<T>, keep: F, Ghost(p): Ghost<spec_fn(T) -> bool>)
    requires
        decides(keep, p),
    ensures
        final(v)@ == old(v)@.filter(p),
{
    let ghost all = v@;
    let ghost mut seen: int = 0;
    let mut i: usize = 0;
    proof {
        reveal(Seq::filter);
        assert(all.take(0).filter(p) =~= Seq::<T>::empty());
        assert(v@ =~= all.take(0).filter(p) + all.skip(0));
    }
    while i < v.len()
        invariant
            0 <= seen <= all.len(),
            v@ == all.take(seen).filter(p) + all.skip(seen),
            i == all.take(seen).filter(p).len(),
            decides(keep, p),
        decreases all.len() - seen,
    {
        let ghost kept = all.take(seen).filter(p);
        assert(v@[i as int] == all[seen]);
        proof {
            lemma_filter_take(all, seen, p);
        }
        if keep(&v[i]) {
            i += 1;
            assert(v@ =~= kept.push(all[seen]) + all.skip(seen + 1));
        } else {
            v.remove(i);
            assert(v@ =~= kept + all.skip(seen + 1));
        }
        proof {
            seen = seen + 1;
        }
    }
    assert(all.take(seen) =~= all);
    assert(v@ =~= all.filter(p));
}

/// The index of the first element that satisfies `p`.
pub open spec fn index_where<T>(s: Seq<T>, p: spec_fn(T) -> bool) -> Option<int>
    decreases s.len(),
{
    if s.len() == 0 {
        None
    } else if p(s[0]) {
        Some(0)
    } else {
        match index_where(s.drop_first(), p) {
            Some(i) => Some(i + 1),
            None => None,
        }
    }
}

/// The first match is in range, matches, and has none before it; without one,
/// nothing matches.
pub proof fn lemma_index_where<T>(s: Seq<T>, p: spec_fn(T) -> bool)
    ensures
        match index_where(s, p) {
            Some(i) => 0 <= i < s.len() && p(s[i]) && forall|j: int|
                0 <= j < i ==> !p(#[trigger] s[j]),
            None => forall|j: int| 0 <= j < s.len() ==> !p(#[trigger] s[j]),
        },
    decreases s.len(),
{
    if s.len() > 0 && !p(s[0]) {
        let rest = s.drop_first();
        lemma_index_where(rest, p);
        assert forall|j: int| 0 < j < s.len() implies #[trigger] s[j] == rest[j - 1] by {}
        assert forall|j: int| 0 <= j < s.len() && (match index_where(rest, p) {
            Some(i) => j < i + 1,
            None => true,
        }) implies !p(#[trigger] s[j]) by {
            if j > 0 {
                assert(s[j] == rest[j - 1]);
            }
        }
    }
}

/// What makes `i` the first match.
pub proof fn lemma_index_where_is<T>(s: Seq<T>, p: spec_fn(T) -> bool, i: int)
    requires
        0 <= i < s.len(),
        p(s[i]),
        forall|j: int| 0 <= j < i ==> !p(#[trigger] s[j]),
    ensures
        index_where(s, p) == Some(i),
    decreases s.len(),
{
    if i > 0 {
        assert(!p(s[0]));
        let rest = s.drop_first();
        assert forall|j: int| 0 <= j < i - 1 implies !p(#[trigger] rest[j]) by {
            assert(rest[j] == s[j + 1]);
        }
        lemma_index_where_is(rest, p, i - 1);
    }
}

/// Without a match there is no first one.
pub proof fn lemma_index_where_none<T>(s: Seq<T>, p: spec_fn(T) -> bool)
    requires
        forall|j: int| 0 <= j < s.len() ==> !p(#[trigger] s[j]),
    ensures
        index_where(s, p) is None,
    decreases s.len(),
{
    if s.len() > 0 {
        let rest = s.drop_first();
        assert forall|j: int| 0 <= j < rest.len() implies !p(#[trigger] rest[j]) by {
            assert(rest[j] == s[j + 1]);
        }
        lemma_index_where_none(rest, p);
    }
}

/// The index of the first element that satisfies the predicate.
pub fn position<T, F: Fn(&T) -> bool>(
    v: &Vec<T>,
    f: F,
    Ghost(p): Ghost<spec_fn(T) -> bool>,
) -> (r: Option<usize>)
    requires
        decides(f, p),
    ensures
        match r {
            Some(i) => index_where(v@, p) == Some(i as int) && i < v@.len() && p(v@[i as int]),
            None => index_where(v@, p) is None,
        },
{
    let mut i: usize = 0;
    while i < v.len()
        invariant
            i <= v.len(),
            decides(f, p),
            forall|j: int| 0 <= j < i ==> !p(#[trigger] v@[j]),
        decreases v.len() - i,
    {
        if f(&v[i]) {
            proof {
                lemma_index_where_is(v@, p, i as int);
            }
            return Some(i);
        }
        i += 1;
    }
    proof {
        lemma_index_where_none(v@, p);
    }
    None
}

/// How many elements satisfy the predicate.
pub fn count_where<T, F: Fn(&T) -> bool>(
    v: &Vec<T>,
    f: F,
    Ghost(p): Ghost<spec_fn(T) -> bool>,
) -> (n: usize)
    requires
        decides(f, p),
    ensures
        n == v@.filter(p).len(),
        n <= v@.len(),
{
    let mut i: usize = 0;
    let mut n: usize = 0;
    proof {
        reveal(Seq::filter);
    }
    assert(v@.take(0).filter(p).len() == 0);
    while i < v.len()
        invariant
            n <= i <= v.len(),
            decides(f, p),
            n == v@.take(i as int).filter(p).len(),
        decreases v.len() - i,
    {
        proof {
            lemma_filter_take(v@, i as int, p);
        }
        if f(&v[i]) {
            n += 1;
        }
        i += 1;
    }
    assert(v@.take(v@.len() as int) =~= v@);
    n
}

/// Clones of the elements that satisfy the predicate, in order.
pub fn select<T: Clone, F: Fn(&T) -> bool>(
    v: &Vec<T>,
    f: F,
    Ghost(p): Ghost<spec_fn(T) -> bool>,
) -> (out: Vec<T>)
    requires
        decides(f, p),
        clones_exactly::<T>(),
    ensures
        out@ == v@.filter(p),
{
    let mut i: usize = 0;
    let mut out: Vec<T> = Vec::new();
    proof {
        reveal(Seq::filter);
    }
    assert(v@.take(0).filter(p) =~= Seq::<T>::empty());
    while i < v.len()
        invariant
            i <= v.len(),
            decides(f, p),
            clones_exactly::<T>(),
            out@ == v@.take(i as int).filter(p),
        decreases v.len() - i,
    {
        proof {
            lemma_filter_take(v@, i as int, p);
        }
        if f(&v[i]) {
            let item = v[i].clone();
            assert(cloned::<T>(v@[i as int], item));
            out.push(item);
        }
        i += 1;
    }
    assert(v@.take(v@.len() as int) =~= v@);
    out
}

/// A clone of every element.
pub fn clone_all<T: Clone>(v: &Vec<T>) -> (out: Vec<T>)
    requires
        clones_exactly::<T>(),
    ensures
        out@ == v@,
{
    let mut i: usize = 0;
    let mut out: Vec<T> = Vec::new();
    while i < v.len()
        invariant
            i <= v.len(),
            clones_exactly::<T>(),
            out@ == v@.take(i as int),
        decreases v.len() - i,
    {
        let item = v[i].clone();
        assert(cloned::<T>(v@[i as int], item));
        out.push(item);
        i += 1;
        assert(v@.take(i as int) =~= v@.take(i - 1).push(v@[i - 1]));
    }
    assert(v@.take(v@.len() as int) =~= v@);
    out
}

/// `s` with `x` put behind every trailing element that may stand before it.
pub open spec fn insert_ordered<T>(s: Seq<T>, x: T, le: spec_fn(T, T) -> bool) -> Seq<T>
    decreases s.len(),
{
    if s.len() == 0 || le(s.last(), x) {
        s.push(x)
    } else {
        insert_ordered(s.drop_last(), x, le).push(s.last())
    }
}

/// The stable sort of `s`: elements that the order ties keep their order.
pub open spec fn stable_sorted<T>(s: Seq<T>, le: spec_fn(T, T) -> bool) -> Seq<T>
    decreases s.len(),
{
    if s.len() == 0 {
        s
    } else {
        insert_ordered(stable_sorted(s.drop_last(), le), s.last(), le)
    }
}

/// `le` is total and transitive.
pub open spec fn is_order<T>(le: spec_fn(T, T) -> bool) -> bool {
    &&& forall|a: T, b: T| #[trigger] le(a, b) || le(b, a)
    &&& forall|a: T, b: T, c: T| #[trigger] le(a, b) && #[trigger] le(b, c) ==> le(a, c)
}

/// Every earlier element may stand before every later one.
pub open spec fn is_sorted<T>(s: Seq<T>, le: spec_fn(T, T) -> bool) -> bool {
    forall|i: int, j: int| 0 <= i < j < s.len() ==> le(#[trigger] s[i], #[trigger] s[j])
}

proof fn lemma_insert_ordered<T>(s: Seq<T>, x: T, le: spec_fn(T, T) -> bool)
    requires
        is_order(le),
        is_sorted(s, le),
    ensures
        is_sorted(insert_ordered(s, x, le), le),
        insert_ordered(s, x, le).len() == s.len() + 1,
        insert_ordered(s, x, le).to_multiset() == s.to_multiset().insert(x),
        forall|i: int|
            0 <= i < insert_ordered(s, x, le).len() ==> #[trigger] insert_ordered(s, x, le)[i] == x
                || s.contains(insert_ordered(s, x, le)[i]),
    decreases s.len(),
{
    broadcast use vstd::seq_lib::group_to_multiset_ensures;

    let r = insert_ordered(s, x, le);
    if s.len() == 0 || le(s.last(), x) {
        assert forall|i: int, j: int| 0 <= i < j < r.len() implies le(
            #[trigger] r[i],
            #[trigger] r[j],
        ) by {
            if j == s.len() && i < s.len() - 1 {
                assert(le(s[i], s.last()));
            }
        }
        assert forall|i: int| 0 <= i < r.len() implies #[trigger] r[i] == x || s.contains(r[i]) by {
            if i < s.len() {
                assert(r[i] == s[i]);
            }
        }
    } else {
        let front = s.drop_last();
        let rec = insert_ordered(front, x, le);
        lemma_insert_ordered(front, x, le);
        assert(r == rec.push(s.last()));
        assert(le(x, s.last()));
        assert forall|i: int, j: int| 0 <= i < j < r.len() implies le(
            #[trigger] r[i],
            #[trigger] r[j],
        ) by {
            if j == rec.len() {
                assert(rec[i] == x || front.contains(rec[i]));
                if rec[i] != x {
                    let m = front.index_of(rec[i]);
                    assert(le(s[m], s[s.len() - 1]));
                }
            } else {
                assert(le(rec[i], rec[j]));
            }
        }
        assert(s =~= front.push(s.last()));
        assert(r.to_multiset() =~= s.to_multiset().insert(x));
        assert forall|i: int| 0 <= i < r.len() implies #[trigger] r[i] == x || s.contains(r[i]) by {
            if i < rec.len() {
                assert(r[i] == rec[i]);
                if rec[i] != x {
                    let m = front.index_of(rec[i]);
                    assert(s[m] == rec[i]);
                }
            } else {
                assert(s[s.len() - 1] == r[i]);
            }
        }
    }
}

/// A stable sort is sorted and holds exactly the elements it was given.
pub proof fn lemma_stable_sorted<T>(s: Seq<T>, le: spec_fn(T, T) -> bool)
    requires
        is_order(le),
    ensures
        is_sorted(stable_sorted(s, le), le),
        stable_sorted(s, le).len() == s.len(),
        stable_sorted(s, le).to_multiset() == s.to_multiset(),
    decreases s.len(),
{
    broadcast use vstd::seq_lib::group_to_multiset_ensures;

    if s.len() > 0 {
        lemma_stable_sorted(s.drop_last(), le);
        lemma_insert_ordered(stable_sorted(s.drop_last(), le), s.last(), le);
        assert(s =~= s.drop_last().push(s.last()));
    }
}

proof fn lemma_insert_ordered_class<T>(
    s: Seq<T>,
    x: T,
    le: spec_fn(T, T) -> bool,
    class: spec_fn(T) -> bool,
)
    requires
        forall|a: T, b: T| class(a) && class(b) ==> #[trigger] le(a, b),
    ensures
        insert_ordered(s, x, le).filter(class) == s.push(x).filter(class),
    decreases s.len(),
{
    if s.len() == 0 || le(s.last(), x) {
    } else {
        let front = s.drop_last();
        lemma_insert_ordered_class(front, x, le, class);
        lemma_filter_push(insert_ordered(front, x, le), s.last(), class);
        lemma_filter_push(front, x, class);
        lemma_filter_push(front, s.last(), class);
        assert(s =~= front.push(s.last()));
        lemma_filter_push(s, x, class);
        assert(!(class(x) && class(s.last())));
    }
}

/// A stable sort keeps the order of elements that tie: any class of mutually
/// tied elements reads the same before and after.
pub proof fn lemma_stable_sorted_keeps_ties<T>(
    s: Seq<T>,
    le: spec_fn(T, T) -> bool,
    class: spec_fn(T) -> bool,
)
    requires
        forall|a: T, b: T| class(a) && class(b) ==> #[trigger] le(a, b),
    ensures
        stable_sorted(s, le).filter(class) == s.filter(class),
    decreases s.len(),
{
    if s.len() > 0 {
        let front = s.drop_last();
        lemma_stable_sorted_keeps_ties(front, le, class);
        lemma_insert_ordered_class(stable_sorted(front, le), s.last(), le, class);
        lemma_filter_push(stable_sorted(front, le), s.last(), class);
        lemma_filter_push(front, s.last(), class);
        assert(s =~= front.push(s.last()));
    }
}

proof fn lemma_insert_ordered_at<T>(s: Seq<T>, x: T, le: spec_fn(T, T) -> bool, at: int)
    requires
        0 <= at <= s.len(),
        at > 0 ==> le(s[at - 1], x),
        forall|j: int| at <= j < s.len() ==> !le(#[trigger] s[j], x),
    ensures
        insert_ordered(s, x, le) == s.insert(at, x),
    decreases s.len(),
{
    if at == s.len() {
        assert(s.insert(at, x) =~= s.push(x));
    } else {
        assert(!le(s[s.len() - 1], x));
        lemma_insert_ordered_at(s.drop_last(), x, le, at);
        assert(s.insert(at, x) =~= s.drop_last().insert(at, x).push(s.last()));
    }
}

/// Sorts a vector stably by the given order.
pub fn stable_sort<T, F: Fn(&T, &T) -> bool>(
    v: Vec<T>,
    f: F,
    Ghost(le): Ghost<spec_fn(T, T) -> bool>,
) -> (out: Vec<T>)
    requires
        decides_order(f, le),
    ensures
        out@ == stable_sorted(v@, le),
{
    let ghost all = v@;
    let mut out: Vec<T> = Vec::new();
    assert(all.take(0) =~= Seq::<T>::empty());
    for x in it: v
        invariant
            it.seq() == all,
            decides_order(f, le),
            out@ == stable_sorted(all.take(it.index() as int), le),
    {
        let ghost k = it.index();
        let ghost sorted = out@;
        let mut at: usize = out.len();
        while at > 0 && !f(&out[at - 1], &x)
            invariant
                at <= out.len(),
                out@ == sorted,
                decides_order(f, le),
                forall|j: int| at <= j < sorted.len() ==> !le(#[trigger] sorted[j], x),
            ensures
                at > 0 ==> le(sorted[at - 1], x),
            decreases at,
        {
            at -= 1;
        }
        proof {
            lemma_insert_ordered_at(sorted, x, le, at as int);
            assert(all.take(k + 1).drop_last() =~= all.take(k as int));
        }
        out.insert(at, x);
    }
    assert(all.take(all.len() as int) =~= all);
    out
}

/// One page of a list: `limit` elements behind the first `offset`.
pub open spec fn page_of<T>(s: Seq<T>, offset: nat, limit: nat) -> Seq<T> {
    let rest = if offset >= s.len() {
        Seq::empty()
    } else {
        s.skip(offset as int)
    };
    if limit >= rest.len() {
        rest
    } else {
        rest.take(limit as int)
    }
}

/// One page of a list: `limit` elements behind the first `offset`.
pub fn page<T>(v: Vec<T>, offset: usize, limit: usize) -> (out: Vec<T>)
    ensures
        out@ == page_of(v@, offset as nat, limit as nat),
{
    let mut v = v;
    let ghost all = v@;
    let mut rest: Vec<T> = if offset >= v.len() {
        Vec::new()
    } else {
        v.split_off(offset)
    };
    proof {
        if offset < all.len() {
            assert(rest@ =~= all.skip(offset as int));
        }
    }
    if limit < rest.len() {
        let ghost before = rest@;
        rest.truncate(limit);
        assert(rest@ =~= before.take(limit as int));
    }
    rest
}

/// `lt` is a strict total order.
pub open spec fn is_strict_order<T>(lt: spec_fn(T, T) -> bool) -> bool {
    &&& forall|a: T, b: T| #[trigger] lt(a, b) || lt(b, a) || a == b
    &&& forall|a: T, b: T| !(#[trigger] lt(a, b) && lt(b, a))
    &&& forall|a: T, b: T, c: T| #[trigger] lt(a, b) && #[trigger] lt(b, c) ==> lt(a, c)
}

/// An ascending sequence with `x` put in its place, unless it is there.
pub open spec fn insert_unique<T>(s: Seq<T>, x: T, lt: spec_fn(T, T) -> bool) -> Seq<T>
    decreases s.len(),
{
    if s.len() == 0 || lt(s.last(), x) {
        s.push(x)
    } else if s.last() == x {
        s
    } else {
        insert_unique(s.drop_last(), x, lt).push(s.last())
    }
}

/// The distinct elements of `s` in ascending order.
pub open spec fn sorted_set<T>(s: Seq<T>, lt: spec_fn(T, T) -> bool) -> Seq<T>
    decreases s.len(),
{
    if s.len() == 0 {
        s
    } else {
        insert_unique(sorted_set(s.drop_last(), lt), s.last(), lt)
    }
}

/// Every earlier element is smaller than every later one.
pub open spec fn is_ascending<T>(s: Seq<T>, lt: spec_fn(T, T) -> bool) -> bool {
    forall|i: int, j: int| 0 <= i < j < s.len() ==> lt(#[trigger] s[i], #[trigger] s[j])
}

proof fn lemma_insert_unique<T>(s: Seq<T>, x: T, lt: spec_fn(T, T) -> bool)
    requires
        is_strict_order(lt),
        is_ascending(s, lt),
    ensures
        is_ascending(insert_unique(s, x, lt), lt),
        forall|y: T| #[trigger] insert_unique(s, x, lt).contains(y) <==> s.contains(y) || y == x,
        insert_unique(s, x, lt).len() <= s.len() + 1,
    decreases s.len(),
{
    let r = insert_unique(s, x, lt);
    if s.len() == 0 || lt(s.last(), x) {
        assert forall|i: int, j: int| 0 <= i < j < r.len() implies lt(
            #[trigger] r[i],
            #[trigger] r[j],
        ) by {
            if j == s.len() && i < s.len() - 1 {
                assert(lt(s[i], s.last()));
            }
        }
        lemma_push_contains(s, x);
    } else if s.last() == x {
        assert(s[s.len() - 1] == x);
    } else {
        let front = s.drop_last();
        let rec = insert_unique(front, x, lt);
        lemma_insert_unique(front, x, lt);
        assert(lt(x, s.last()));
        assert forall|i: int, j: int| 0 <= i < j < r.len() implies lt(
            #[trigger] r[i],
            #[trigger] r[j],
        ) by {
            if j == rec.len() {
                assert(rec.contains(rec[i]));
                if rec[i] != x {
                    let m = front.index_of(rec[i]);
                    assert(lt(s[m], s[s.len() - 1]));
                }
            } else {
                assert(lt(rec[i], rec[j]));
            }
        }
        lemma_push_contains(rec, s.last());
        lemma_push_contains(front, s.last());
        assert(s =~= front.push(s.last()));
    }
}

/// What a sequence contains after a push.
pub proof fn lemma_push_contains<T>(s: Seq<T>, x: T)
    ensures
        forall|y: T| #[trigger] s.push(x).contains(y) <==> s.contains(y) || y == x,
{
    assert forall|y: T| #[trigger] s.push(x).contains(y) <==> s.contains(y) || y == x by {
        if s.contains(y) {
            let i = s.index_of(y);
            assert(s.push(x)[i] == y);
        }
        if y == x {
            assert(s.push(x)[s.len() as int] == y);
        }
    }
}

/// The sorted set of a sequence is ascending and has exactly its elements.
pub proof fn lemma_sorted_set<T>(s: Seq<T>, lt: spec_fn(T, T) -> bool)
    requires
        is_strict_order(lt),
    ensures
        is_ascending(sorted_set(s, lt), lt),
        forall|y: T| #[trigger] sorted_set(s, lt).contains(y) <==> s.contains(y),
        sorted_set(s, lt).len() <= s.len(),
    decreases s.len(),
{
    if s.len() > 0 {
        lemma_sorted_set(s.drop_last(), lt);
        lemma_insert_unique(sorted_set(s.drop_last(), lt), s.last(), lt);
        lemma_push_contains(s.drop_last(), s.last());
        assert(s =~= s.drop_last().push(s.last()));
    }
}

proof fn lemma_insert_unique_at<T>(s: Seq<T>, x: T, lt: spec_fn(T, T) -> bool, at: int)
    requires
        is_strict_order(lt),
        0 <= at <= s.len(),
        at > 0 ==> lt(s[at - 1], x) || s[at - 1] == x,
        forall|j: int| at <= j < s.len() ==> lt(x, #[trigger] s[j]),
    ensures
        insert_unique(s, x, lt) == (if at > 0 && s[at - 1] == x {
            s
        } else {
            s.insert(at, x)
        }),
    decreases s.len(),
{
    if at == s.len() {
        if !(at > 0 && s[at - 1] == x) {
            assert(s.insert(at, x) =~= s.push(x));
        } else {
            assert(!lt(s.last(), x));
        }
    } else {
        assert(lt(x, s[s.len() - 1]));
        lemma_insert_unique_at(s.drop_last(), x, lt, at);
        if at > 0 && s[at - 1] == x {
            assert(s.drop_last().push(s.last()) =~= s);
        } else {
            assert(s.insert(at, x) =~= s.drop_last().insert(at, x).push(s.last()));
        }
    }
}

/// The distinct elements of a vector in ascending order.
pub fn distinct_sorted<T: Copy, F: Fn(&T, &T) -> bool>(
    v: &Vec<T>,
    f: F,
    Ghost(lt): Ghost<spec_fn(T, T) -> bool>,
) -> (out: Vec<T>)
    requires
        decides_order(f, lt),
        is_strict_order(lt),
    ensures
        out@ == sorted_set(v@, lt),
{
    let mut out: Vec<T> = Vec::new();
    let mut i: usize = 0;
    assert(v@.take(0) =~= Seq::<T>::empty());
    while i < v.len()
        invariant
            i <= v@.len(),
            decides_order(f, lt),
            is_strict_order(lt),
            out@ == sorted_set(v@.take(i as int), lt),
        decreases v.len() - i,
    {
        let x = v[i];
        let ghost sorted = out@;
        let mut at: usize = out.len();
        while at > 0 && f(&x, &out[at - 1])
            invariant
                at <= out.len(),
                out@ == sorted,
                decides_order(f, lt),
                forall|j: int| at <= j < sorted.len() ==> lt(x, #[trigger] sorted[j]),
            ensures
                at > 0 ==> !lt(x, sorted[at - 1]),
            decreases at,
        {
            at -= 1;
        }
        proof {
            lemma_insert_unique_at(sorted, x, lt, at as int);
            assert(v@.take(i + 1).drop_last() =~= v@.take(i as int));
        }
        if at == 0 || f(&out[at - 1], &x) {
            out.insert(at, x);
        }
        i += 1;
    }
    assert(v@.take(i as int) =~= v@);
    out
}

/// What a sequence of references refers to.
pub open spec fn derefs<T>(s: Seq<&T>) -> Seq<T> {
    s.map_values(|t: &T| *t)
}

/// References to the elements that satisfy the predicate, in order.
pub fn select_refs<'a, T, F: Fn(&T) -> bool>(
    v: &'a Vec<T>,
    f: F,
    Ghost(p): Ghost<spec_fn(T) -> bool>,
) -> (out: Vec<&'a T>)
    requires
        decides(f, p),
    ensures
        derefs(out@) == v@.filter(p),
{
    let mut i: usize = 0;
    let mut out: Vec<&'a T> = Vec::new();
    proof {
        reveal(Seq::filter);
    }
    assert(derefs(out@) =~= v@.take(0).filter(p));
    while i < v.len()
        invariant
            i <= v.len(),
            decides(f, p),
            derefs(out@) == v@.take(i as int).filter(p),
        decreases v.len() - i,
    {
        proof {
            lemma_filter_take(v@, i as int, p);
        }
        if f(&v[i]) {
            let ghost before = out@;
            out.push(&v[i]);
            assert(derefs(out@) =~= derefs(before).push(v@[i as int]));
        }
        i += 1;
    }
    assert(v@.take(v@.len() as int) =~= v@);
    out
}

proof fn lemma_insert_ordered_derefs<T>(s: Seq<&T>, x: &T, le: spec_fn(T, T) -> bool)
    ensures
        derefs(insert_ordered(s, x, |a: &T, b: &T| le(*a, *b))) == insert_ordered(derefs(s), *x, le),
    decreases s.len(),
{
    let le_ref = |a: &T, b: &T| le(*a, *b);
    let d = derefs(s);
    if s.len() == 0 || le_ref(s.last(), x) {
        if s.len() > 0 {
            assert(d.last() == *s.last());
        }
        assert(derefs(s.push(x)) =~= d.push(*x));
    } else {
        assert(d.last() == *s.last());
        assert(d.drop_last() =~= derefs(s.drop_last()));
        lemma_insert_ordered_derefs(s.drop_last(), x, le);
        let rec = insert_ordered(s.drop_last(), x, le_ref);
        assert(derefs(rec.push(s.last())) =~= derefs(rec).push(*s.last()));
    }
}

proof fn lemma_stable_sorted_derefs<T>(s: Seq<&T>, le: spec_fn(T, T) -> bool)
    ensures
        derefs(stable_sorted(s, |a: &T, b: &T| le(*a, *b))) == stable_sorted(derefs(s), le),
    decreases s.len(),
{
    let le_ref = |a: &T, b: &T| le(*a, *b);
    let d = derefs(s);
    if s.len() > 0 {
        lemma_stable_sorted_derefs(s.drop_last(), le);
        assert(d.drop_last() =~= derefs(s.drop_last()));
        assert(d.last() == *s.last());
        lemma_insert_ordered_derefs(stable_sorted(s.drop_last(), le_ref), s.last(), le);
    } else {
        assert(derefs(s) =~= Seq::<T>::empty());
        assert(derefs(stable_sorted(s, le_ref)) =~= stable_sorted(d, le));
    }
}

/// Sorts references stably by the given order on what they refer to.
pub fn sort_refs<'a, T, F: Fn(&T, &T) -> bool>(
    v: Vec<&'a T>,
    f: F,
    Ghost(le): Ghost<spec_fn(T, T) -> bool>,
) -> (out: Vec<&'a T>)
    requires
        decides_order(f, le),
    ensures
        derefs(out@) == stable_sorted(derefs(v@), le),
{
    let ghost le_ref = |a: &T, b: &T| le(*a, *b);
    let g = |a: &&'a T, b: &&'a T| -> (r: bool)
        ensures
            r == le(**a, **b),
    { f(*a, *b) };
    proof {
        lemma_stable_sorted_derefs(v@, le);
    }
    stable_sort(v, g, Ghost(le_ref))
}

/// One page of a list of references.
pub fn page_refs<'a, T>(v: Vec<&'a T>, offset: usize, limit: usize) -> (out: Vec<&'a T>)
    ensures
        derefs(out@) == page_of(derefs(v@), offset as nat, limit as nat),
{
    let ghost all = v@;
    let out = page(v, offset, limit);
    assert(derefs(out@) =~= page_of(derefs(all), offset as nat, limit as nat));
    out
}

proof fn lemma_insert_ordered_map<A, B>(
    s: Seq<A>,
    x: A,
    f: spec_fn(A) -> B,
    le: spec_fn(A, A) -> bool,
    le_b: spec_fn(B, B) -> bool,
)
    requires
        forall|a: A, b: A| #[trigger] le(a, b) == le_b(f(a), f(b)),
    ensures
        insert_ordered(s, x, le).map_values(f) == insert_ordered(s.map_values(f), f(x), le_b),
    decreases s.len(),
{
    let m = s.map_values(f);
    if s.len() == 0 || le(s.last(), x) {
        if s.len() > 0 {
            assert(m.last() == f(s.last()));
        }
        assert(s.push(x).map_values(f) =~= m.push(f(x)));
    } else {
        assert(m.last() == f(s.last()));
        assert(m.drop_last() =~= s.drop_last().map_values(f));
        lemma_insert_ordered_map(s.drop_last(), x, f, le, le_b);
        let rec = insert_ordered(s.drop_last(), x, le);
        assert(rec.push(s.last()).map_values(f) =~= rec.map_values(f).push(f(s.last())));
    }
}

/// Sorting by what a function makes of the elements, before or after applying it.
pub proof fn lemma_stable_sorted_map<A, B>(
    s: Seq<A>,
    f: spec_fn(A) -> B,
    le: spec_fn(A, A) -> bool,
    le_b: spec_fn(B, B) -> bool,
)
    requires
        forall|a: A, b: A| #[trigger] le(a, b) == le_b(f(a), f(b)),
    ensures
        stable_sorted(s, le).map_values(f) == stable_sorted(s.map_values(f), le_b),
    decreases s.len(),
{
    let m = s.map_values(f);
    if s.len() > 0 {
        lemma_stable_sorted_map(s.drop_last(), f, le, le_b);
        assert(m.drop_last() =~= s.drop_last().map_values(f));
        assert(m.last() == f(s.last()));
        lemma_insert_ordered_map(stable_sorted(s.drop_last(), le), s.last(), f, le, le_b);
    } else {
        assert(m =~= Seq::<B>::empty());
        assert(stable_sorted(s, le).map_values(f) =~= stable_sorted(m, le_b));
    }
}

/// Filtering by what a function makes of the elements, before or after applying it.
pub proof fn lemma_filter_map<A, B>(
    s: Seq<A>,
    f: spec_fn(A) -> B,
    p: spec_fn(A) -> bool,
    q: spec_fn(B) -> bool,
)
    requires
        forall|a: A| #[trigger] p(a) == q(f(a)),
    ensures
        s.filter(p).map_values(f) == s.map_values(f).filter(q),
    decreases s.len(),
{
    reveal(Seq::filter);
    let m = s.map_values(f);
    if s.len() > 0 {
        lemma_filter_map(s.drop_last(), f, p, q);
        assert(m.drop_last() =~= s.drop_last().map_values(f));
        assert(m.last() == f(s.last()));
        assert(p(s.last()) == q(f(s.last())));
        let rec = s.drop_last().filter(p);
        assert(rec.push(s.last()).map_values(f) =~= rec.map_values(f).push(f(s.last())));
    } else {
        assert(m =~= Seq::<B>::empty());
        assert(s.filter(p).map_values(f) =~= m.filter(q));
    }
}

/// Whether an id is listed.
pub fn contains_id(ids: &Vec<u128>, id: u128) -> (r: bool)
    ensures
        r == ids@.contains(id),
{
    let mut i: usize = 0;
    while i < ids.len()
        invariant
            i <= ids@.len(),
            forall|j: int| 0 <= j < i ==> ids@[j] != id,
        decreases ids.len() - i,
    {
        if ids[i] == id {
            assert(ids@[i as int] == id);
            return true;
        }
        i += 1;
    }
    false
}

/// A page holds the elements behind the first `offset`, in their order, as many as there are
/// up to `limit`.
pub proof fn law_page<T>(s: Seq<T>, offset: nat, limit: nat, k: int)
    ensures
        offset >= s.len() ==> page_of(s, offset, limit).len() == 0,
        offset < s.len() && s.len() - offset <= limit ==> page_of(s, offset, limit).len() == s.len()
            - offset,
        offset < s.len() && s.len() - offset > limit ==> page_of(s, offset, limit).len() == limit,
        0 <= k < page_of(s, offset, limit).len() ==> page_of(s, offset, limit)[k] == s[offset + k],
{
}

/// A sorted selection of a list, before paging and after: the selection holds exactly the
/// elements that the predicate picks, and a page of it is sorted and cut where it says.
pub proof fn lemma_listing<T>(
    s: Seq<T>,
    p: spec_fn(T) -> bool,
    le: spec_fn(T, T) -> bool,
    offset: nat,
    limit: nat,
)
    requires
        is_order(le),
    ensures
        ({
            let sorted = stable_sorted(s.filter(p), le);
            let out = page_of(sorted, offset, limit);
            &&& sorted.len() == s.filter(p).len()
            &&& forall|x: T| #[trigger] sorted.contains(x) <==> s.contains(x) && p(x)
            &&& out.len() <= limit
            &&& forall|k: int| 0 <= k < out.len() ==> #[trigger] out[k] == sorted[offset + k]
            &&& forall|k: int| 0 <= k < out.len() ==> s.contains(#[trigger] out[k]) && p(out[k])
            &&& forall|i: int, j: int|
                0 <= i < j < out.len() ==> le(#[trigger] out[i], #[trigger] out[j])
        }),
{
    broadcast use vstd::seq_lib::group_to_multiset_ensures;

    let kept = s.filter(p);
    let sorted = stable_sorted(kept, le);
    let out = page_of(sorted, offset, limit);
    lemma_stable_sorted(kept, le);
    lemma_filter_members(s, p);
    assert forall|x: T| #[trigger] sorted.contains(x) <==> s.contains(x) && p(x) by {
        assert(sorted.contains(x) <==> sorted.to_multiset().count(x) > 0);
        assert(kept.contains(x) <==> kept.to_multiset().count(x) > 0);
    }
    assert forall|k: int| 0 <= k < out.len() implies #[trigger] out[k] == sorted[offset + k] by {
        law_page(sorted, offset, limit, k);
    }
    assert forall|k: int| 0 <= k < out.len() implies s.contains(#[trigger] out[k]) && p(out[k]) by {
        assert(out[k] == sorted[offset + k]);
        assert(sorted.contains(out[k]));
    }
    assert forall|i: int, j: int| 0 <= i < j < out.len() implies le(
        #[trigger] out[i],
        #[trigger] out[j],
    ) by {
        assert(le(sorted[offset + i], sorted[offset + j]));
    }
}

/// Sorting changes no count: as many elements satisfy a predicate as before.
pub proof fn lemma_sorted_count<T>(s: Seq<T>, le: spec_fn(T, T) -> bool, p: spec_fn(T) -> bool)
    ensures
        stable_sorted(s, le).filter(p).len() == s.filter(p).len(),
    decreases s.len(),
{
    reveal(Seq::filter);
    if s.len() > 0 {
        lemma_sorted_count(s.drop_last(), le, p);
        lemma_inserted_count(stable_sorted(s.drop_last(), le), s.last(), le, p);
    }
}

proof fn lemma_inserted_count<T>(
    s: Seq<T>,
    x: T,
    le: spec_fn(T, T) -> bool,
    p: spec_fn(T) -> bool,
)
    ensures
        insert_ordered(s, x, le).filter(p).len() == s.filter(p).len() + (if p(x) {
            1nat
        } else {
            0nat
        }),
    decreases s.len(),
{
    if s.len() == 0 || le(s.last(), x) {
        lemma_filter_push(s, x, p);
    } else {
        let front = s.drop_last();
        lemma_inserted_count(front, x, le, p);
        lemma_filter_push(insert_ordered(front, x, le), s.last(), p);
        lemma_filter_push(front, s.last(), p);
        assert(s =~= front.push(s.last()));
    }
}

/// Filtering what a weaker filter kept is filtering what was there.
pub proof fn lemma_filter_narrows<T>(s: Seq<T>, p: spec_fn(T) -> bool, q: spec_fn(T) -> bool)
    requires
        forall|x: T| #[trigger] q(x) ==> p(x),
    ensures
        s.filter(p).filter(q) == s.filter(q),
    decreases s.len(),
{
    reveal(Seq::filter);
    if s.len() > 0 {
        let front = s.drop_last();
        lemma_filter_narrows(front, p, q);
        lemma_filter_push(front.filter(p), s.last(), q);
        assert(q(s.last()) ==> p(s.last()));
        assert(s =~= front.push(s.last()));
        lemma_filter_push(front, s.last(), p);
        lemma_filter_push(front, s.last(), q);
    }
}

} // verus!
