//! Instants and the stable ordering of posts by date.
use vstd::prelude::*;

verus! {

/// A point in time: seconds since the Unix epoch and the nanoseconds
/// within that second. Posts are ordered by it.
#[derive(Clone, Copy, Debug, PartialEq, Eq, Structural)]
pub struct Instant {
    pub secs: i64,
    pub nanos: u32,
}

/// `a` is strictly earlier than `b`.
pub open spec fn instant_lt(a: Instant, b: Instant) -> bool {
    a.secs < b.secs || (a.secs == b.secs && a.nanos < b.nanos)
}

/// Whether `a` is strictly earlier than `b`.
pub fn instant_less(a: Instant, b: Instant) -> (r: bool)
    ensures
        r == instant_lt(a, b),
{
    a.secs < b.secs || (a.secs == b.secs && a.nanos < b.nanos)
}

/// In an ascending order (`desc == false`) `a` strictly precedes `b` when it
/// is earlier; in a descending one, when it is later.
pub open spec fn goes_before(a: Instant, b: Instant, desc: bool) -> bool {
    if desc {
        instant_lt(b, a)
    } else {
        instant_lt(a, b)
    }
}

fn goes_before_exec(a: Instant, b: Instant, desc: bool) -> (r: bool)
    ensures
        r == goes_before(a, b, desc),
{
    if desc {
        instant_less(b, a)
    } else {
        instant_less(a, b)
    }
}

/// `p` lists each of the positions `0..n` exactly once.
pub open spec fn is_permutation(p: Seq<usize>, n: nat) -> bool {
    &&& p.len() == n
    &&& forall|i: int| 0 <= i < p.len() ==> #[trigger] p[i] < n
    &&& forall|i: int, j: int| 0 <= i < j < p.len() ==> p[i] != p[j]
    &&& forall|x: usize| x < n ==> #[trigger] p.contains(x)
}

/// Taking the positions in the order `p` lists them, no key strictly
/// precedes one listed before it.
pub open spec fn is_ordered(keys: Seq<Instant>, p: Seq<usize>, desc: bool) -> bool {
    forall|i: int, j: int|
        0 <= i < j < p.len() ==> !goes_before(keys[p[j] as int], keys[p[i] as int], desc)
}

/// Positions with equal keys keep the relative order they had.
pub open spec fn is_stable(keys: Seq<Instant>, p: Seq<usize>) -> bool {
    forall|i: int, j: int|
        0 <= i < j < p.len() && keys[p[i] as int] == keys[p[j] as int] ==> p[i] < p[j]
}

/// `p` is the order in which a stable sort by key (ascending, or
/// descending when `desc`) puts the positions of `keys`: what std's
/// `sort_by_key` with the key, or with `Reverse` of it, does.
pub open spec fn is_stable_sort(keys: Seq<Instant>, p: Seq<usize>, desc: bool) -> bool {
    &&& is_permutation(p, keys.len())
    &&& is_ordered(keys, p, desc)
    &&& is_stable(keys, p)
}

/// The positions of `keys` in stably sorted order: ascending by instant, or
/// descending when `desc`; equal instants keep the order they had.
pub fn stable_sort(keys: &Vec<Instant>, desc: bool) -> (p: Vec<usize>)
    ensures
        is_stable_sort(keys@, p@, desc),
{
    let n = keys.len();
    let mut p: Vec<usize> = Vec::new();
    for i in 0..n
        invariant
            n == keys.len(),
            p.len() == i,
            forall|q: int| 0 <= q < p.len() ==> #[trigger] p@[q] < i,
            forall|a: int, b: int| 0 <= a < b < p.len() ==> p@[a] != p@[b],
            forall|x: usize| x < i ==> #[trigger] p@.contains(x),
            is_ordered(keys@, p@, desc),
            is_stable(keys@, p@),
    {
        let ki = keys[i];
        proof {
            assert forall|x: usize| x < i implies #[trigger] p@.contains(x) by {}
        }
        let mut pos = p.len();
        while pos > 0 && goes_before_exec(ki, keys[p[pos - 1]], desc)
            invariant
                n == keys.len(),
                i < n,
                ki == keys@[i as int],
                pos <= p.len(),
                forall|q: int| 0 <= q < p.len() ==> #[trigger] p@[q] < i,
                forall|q: int| pos <= q < p.len() ==> goes_before(ki, keys@[#[trigger] p@[q] as int], desc),
            decreases pos,
        {
            pos = pos - 1;
        }
        proof {
            // everything before `pos` is at or before `ki`
            assert forall|q: int| 0 <= q < pos implies !goes_before(ki, keys@[#[trigger] p@[q] as int], desc) by {
                assert(!goes_before(ki, keys@[p@[pos - 1] as int], desc));
                if q < pos - 1 {
                    assert(!goes_before(keys@[p@[pos - 1] as int], keys@[p@[q] as int], desc));
                }
            }
        }
        let ghost old_p = p@;
        p.insert(pos, i);
        proof {
            assert(p@ == old_p.insert(pos as int, i));
            assert forall|q: int| 0 <= q < p.len() implies #[trigger] p@[q] < i + 1 by {
                if q < pos {
                    assert(p@[q] == old_p[q]);
                } else if q > pos {
                    assert(p@[q] == old_p[q - 1]);
                }
            }
            assert forall|x: usize| x < i + 1 implies #[trigger] p@.contains(x) by {
                if x == i {
                    assert(p@[pos as int] == x);
                } else {
                    assert(old_p.contains(x));
                    let q = choose|q: int| 0 <= q < old_p.len() && old_p[q] == x;
                    if q < pos {
                        assert(p@[q] == x);
                    } else {
                        assert(p@[q + 1] == x);
                    }
                }
            }
            assert forall|a: int, b: int| 0 <= a < b < p.len() implies p@[a] != p@[b] by {
                if a < pos && b < pos {
                } else if a < pos && b == pos {
                } else if a < pos {
                    assert(p@[b] == old_p[b - 1]);
                } else if a == pos {
                    assert(p@[b] == old_p[b - 1]);
                } else {
                    assert(p@[a] == old_p[a - 1]);
                    assert(p@[b] == old_p[b - 1]);
                }
            }
            assert forall|a: int, b: int| 0 <= a < b < p.len() implies !goes_before(
                keys@[p@[b] as int],
                keys@[p@[a] as int],
                desc,
            ) by {
                if b < pos {
                } else if b == pos {
                    assert(p@[a] == old_p[a]);
                } else if a < pos {
                    assert(p@[b] == old_p[b - 1]);
                    assert(p@[a] == old_p[a]);
                } else if a == pos {
                    assert(p@[b] == old_p[b - 1]);
                } else {
                    assert(p@[a] == old_p[a - 1]);
                    assert(p@[b] == old_p[b - 1]);
                }
            }
            assert forall|a: int, b: int|
                0 <= a < b < p.len() && keys@[p@[a] as int] == keys@[p@[b] as int] implies p@[a]
                < p@[b] by {
                if b < pos {
                } else if b == pos {
                    assert(p@[a] == old_p[a]);
                } else if a < pos {
                    assert(p@[b] == old_p[b - 1]);
                    assert(p@[a] == old_p[a]);
                } else if a == pos {
                    assert(p@[b] == old_p[b - 1]);
                } else {
                    assert(p@[a] == old_p[a - 1]);
                    assert(p@[b] == old_p[b - 1]);
                }
            }
        }
    }
    p
}


/// The strict order a stable sort puts positions in: by key (ascending,
/// or descending when `desc`), equal keys by position.
pub open spec fn sorts_before(keys: Seq<Instant>, x: usize, y: usize, desc: bool) -> bool {
    goes_before(keys[x as int], keys[y as int], desc) || (keys[x as int] == keys[y as int] && x < y)
}

/// In a stable sort, a position listed earlier sorts before one listed later.
pub proof fn lemma_stable_sort_increasing(keys: Seq<Instant>, p: Seq<usize>, desc: bool, i: int, j: int)
    requires
        is_stable_sort(keys, p, desc),
        0 <= i < j < p.len(),
    ensures
        sorts_before(keys, p[i], p[j], desc),
{
    assert(!goes_before(keys[p[j] as int], keys[p[i] as int], desc));
    assert(p[i] < keys.len() && p[j] < keys.len());
}

/// Law: a stable sort is determined by the keys: any two stably sorted
/// orders of the same keys are the same order.
pub proof fn lemma_stable_sort_unique(keys: Seq<Instant>, p1: Seq<usize>, p2: Seq<usize>, desc: bool)
    requires
        is_stable_sort(keys, p1, desc),
        is_stable_sort(keys, p2, desc),
    ensures
        p1 == p2,
{
    if p1 != p2 {
        assert(p1.len() == p2.len());
        let i = choose|i: int| 0 <= i < p1.len() && p1[i] != p2[i] && forall|t: int|
            0 <= t < i ==> p1[t] == p2[t];
        assert(exists|i: int| 0 <= i < p1.len() && p1[i] != p2[i]) by {
            assert(!(p1 =~= p2));
        }
        lemma_first_difference(p1, p2);
        let a = p1[i];
        let b = p2[i];
        assert(p2.contains(a));
        let ja = choose|j: int| 0 <= j < p2.len() && p2[j] == a;
        assert(p1.contains(b));
        let jb = choose|j: int| 0 <= j < p1.len() && p1[j] == b;
        if ja < i {
            assert(p1[ja] == a);
        }
        if jb < i {
            assert(p2[jb] == b);
        }
        lemma_stable_sort_increasing(keys, p2, desc, i, ja);
        lemma_stable_sort_increasing(keys, p1, desc, i, jb);
    }
}

proof fn lemma_first_difference(p1: Seq<usize>, p2: Seq<usize>)
    requires
        p1.len() == p2.len(),
        exists|i: int| 0 <= i < p1.len() && p1[i] != p2[i],
    ensures
        exists|i: int| 0 <= i < p1.len() && p1[i] != p2[i] && forall|t: int| 0 <= t < i ==> p1[t] == p2[t],
    decreases p1.len(),
{
    if p1[0] != p2[0] {
        assert(forall|t: int| 0 <= t < 0 ==> p1[t] == p2[t]);
    } else {
        let q1 = p1.drop_first();
        let q2 = p2.drop_first();
        let k = choose|i: int| 0 <= i < p1.len() && p1[i] != p2[i];
        assert(q1[k - 1] != q2[k - 1]);
        lemma_first_difference(q1, q2);
        let m = choose|i: int| 0 <= i < q1.len() && q1[i] != q2[i] && forall|t: int| 0 <= t < i ==> q1[t] == q2[t];
        assert(p1[m + 1] != p2[m + 1]);
        assert forall|t: int| 0 <= t < m + 1 implies p1[t] == p2[t] by {
            if t > 0 {
                assert(q1[t - 1] == q2[t - 1]);
            }
        }
    }
}

/// The instant as nanoseconds since the Unix epoch.
pub open spec fn epoch_nanos(a: Instant) -> int {
    a.secs * 1_000_000_000 + a.nanos
}

/// Law: the order of instants is the order of time. Seconds decide before
/// nanoseconds; and for instants whose nanoseconds lie within their second,
/// one is earlier than another exactly when fewer nanoseconds have passed
/// since the epoch.
pub proof fn lemma_instant_order_is_time(a: Instant, b: Instant)
    ensures
        a.secs < b.secs ==> instant_lt(a, b),
        b.secs < a.secs ==> !instant_lt(a, b),
        a.secs == b.secs ==> (instant_lt(a, b) <==> a.nanos < b.nanos),
        a.nanos < 1_000_000_000 && b.nanos < 1_000_000_000 ==> (instant_lt(a, b) <==> epoch_nanos(a)
            < epoch_nanos(b)),
{
    if a.nanos < 1_000_000_000 && b.nanos < 1_000_000_000 {
        if a.secs < b.secs {
            assert(a.secs * 1_000_000_000 + 1_000_000_000 <= b.secs * 1_000_000_000) by (nonlinear_arith)
                requires
                    a.secs < b.secs,
            ;
        } else if b.secs < a.secs {
            assert(b.secs * 1_000_000_000 + 1_000_000_000 <= a.secs * 1_000_000_000) by (nonlinear_arith)
                requires
                    b.secs < a.secs,
            ;
        }
    }
}

/// Law: a stable sort orders posts by time: ascending, a post listed
/// earlier falls in the same or an earlier second than every post listed
/// after it; descending, in the same or a later second.
pub proof fn lemma_sorted_by_seconds(keys: Seq<Instant>, p: Seq<usize>, desc: bool)
    requires
        is_stable_sort(keys, p, desc),
    ensures
        forall|i: int, j: int|
            0 <= i < j < p.len() ==> (if desc {
                keys[p[j] as int].secs <= keys[p[i] as int].secs
            } else {
                keys[p[i] as int].secs <= keys[p[j] as int].secs
            }),
{
    assert forall|i: int, j: int| 0 <= i < j < p.len() implies (if desc {
        keys[p[j] as int].secs <= keys[p[i] as int].secs
    } else {
        keys[p[i] as int].secs <= keys[p[j] as int].secs
    }) by {
        lemma_instant_order_is_time(keys[p[i] as int], keys[p[j] as int]);
        lemma_instant_order_is_time(keys[p[j] as int], keys[p[i] as int]);
        assert(!goes_before(keys[p[j] as int], keys[p[i] as int], desc));
    }
}

} // verus!
