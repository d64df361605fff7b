//! A fund's largest holdings and its mixes by asset class, sector and country.
//!
//! Weights are binary floating-point numbers, which this module never computes
//! with. It orders them by an integer key that sorts as they do, and it says
//! which positions count into which bucket.
use vstd::prelude::*;

use crate::text::same;

verus! {

/// How many of a fund's holdings to keep, the largest by weight.
pub const TOP_HOLDINGS: usize = 25;

/// The key of the weight 0.05, the smallest that a mix shows.
pub const MIX_FLOOR_KEY: i64 = 0x3FA9_9999_9999_999A;

/// The key of positive infinity, beyond which stand only values that are no
/// numbers.
pub const INFINITY_KEY: i64 = 0x7FF0_0000_0000_0000;

/// The place of a 64-bit floating-point number, given by its bits, in the total
/// order of such numbers: the bits of a number without a sign count up from 0,
/// those of a number with a sign count down from -1.
pub open spec fn order_key(bits: int) -> int {
    if bits < 0x8000_0000_0000_0000 {
        bits
    } else {
        0x7fff_ffff_ffff_ffff - bits
    }
}

/// The integer by which `f64::total_cmp` orders the number with these bits.
pub fn total_order_key(bits: u64) -> (r: i64)
    ensures
        r == order_key(bits as int),
{
    if bits < 0x8000_0000_0000_0000 {
        bits as i64
    } else {
        let down: u64 = bits - 0x8000_0000_0000_0000;
        -1 - (down as i64)
    }
}

/// Different bits have different keys.
pub proof fn law_order_key_injective(a: u64, b: u64)
    requires
        order_key(a as int) == order_key(b as int),
    ensures
        a == b,
{
}

/// `a` ranks before `b`: it is larger, or as large and earlier.
pub open spec fn ranks_before(keys: Seq<i64>, a: int, b: int) -> bool {
    keys[a] > keys[b] || (keys[a] == keys[b] && a < b)
}

/// `r` lists places of `keys`, the larger keys first and equal ones in order.
pub open spec fn in_rank_order(keys: Seq<i64>, r: Seq<usize>) -> bool {
    &&& forall|i: int| 0 <= i < r.len() ==> (#[trigger] r[i]) < keys.len()
    &&& forall|i: int, j: int|
        0 <= i < j < r.len() ==> ranks_before(keys, #[trigger] r[i] as int, #[trigger] r[j] as int)
}

/// `r` is the stable descending order of all of `keys`.
pub open spec fn is_ranking(keys: Seq<i64>, r: Seq<usize>) -> bool {
    in_rank_order(keys, r) && r.len() == keys.len()
}

/// The stable descending order of `keys`, as a list of places.
pub fn rank_descending(keys: &Vec<i64>) -> (r: Vec<usize>)
    ensures
        is_ranking(keys@, r@),
{
    let mut out: Vec<usize> = Vec::new();
    let mut i: usize = 0;
    while i < keys.len()
        invariant
            i <= keys@.len(),
            out@.len() == i,
            in_rank_order(keys@, out@),
            forall|j: int| 0 <= j < out@.len() ==> (#[trigger] out@[j]) < i,
        decreases keys.len() - i,
    {
        let mut at: usize = out.len();
        while at > 0 && keys[out[at - 1]] < keys[i]
            invariant
                i < keys@.len(),
                at <= out@.len(),
                out@.len() == i,
                in_rank_order(keys@, out@),
                forall|j: int| 0 <= j < out@.len() ==> (#[trigger] out@[j]) < i,
                forall|j: int|
                    at <= j < out@.len() ==> keys@[(#[trigger] out@[j]) as int] < keys@[i as int],
            decreases at,
        {
            at -= 1;
        }
        let ghost before = out@;
        proof {
            assert forall|j: int| 0 <= j < at implies keys@[(#[trigger] before[j]) as int]
                >= keys@[i as int] by {
                if j < at - 1 {
                    assert(ranks_before(keys@, before[j] as int, before[at - 1] as int));
                }
            }
        }
        out.insert(at, i);
        proof {
            assert(out@ =~= before.insert(at as int, i));
            assert forall|a: int, b: int| 0 <= a < b < out@.len() implies ranks_before(
                keys@,
                #[trigger] out@[a] as int,
                #[trigger] out@[b] as int,
            ) by {
                let pa = if a < at {
                    a
                } else {
                    a - 1
                };
                let pb = if b < at {
                    b
                } else {
                    b - 1
                };
                if a == at {
                    assert(out@[b] == before[pb]);
                } else if b == at {
                    assert(out@[a] == before[pa]);
                } else {
                    assert(out@[a] == before[pa] && out@[b] == before[pb]);
                }
            }
            assert forall|j: int| 0 <= j < out@.len() implies (#[trigger] out@[j]) < i + 1 by {
                if j < at {
                    assert(out@[j] == before[j]);
                } else if j > at {
                    assert(out@[j] == before[j - 1]);
                }
            }
        }
        i += 1;
    }
    out
}

/// `r` is the beginning of the ranking of `keys`, up to `limit` places.
pub open spec fn is_top(keys: Seq<i64>, r: Seq<usize>, limit: nat) -> bool {
    exists|all: Seq<usize>| #[trigger]
        is_ranking(keys, all) && r == all.take(
            if limit < all.len() {
                limit as int
            } else {
                all.len() as int
            },
        )
}

/// The places of the largest holdings, by the keys of their weights.
pub fn top_holdings(keys: &Vec<i64>) -> (r: Vec<usize>)
    ensures
        is_top(keys@, r@, TOP_HOLDINGS as nat),
        r@.len() == (if keys@.len() < TOP_HOLDINGS {
            keys@.len()
        } else {
            TOP_HOLDINGS as nat
        }),
{
    let mut r = rank_descending(keys);
    let ghost all = r@;
    if r.len() > TOP_HOLDINGS {
        r.truncate(TOP_HOLDINGS);
    }
    assert(is_ranking(keys@, all));
    assert(r@ =~= all.take(
        if (TOP_HOLDINGS as nat) < all.len() {
            TOP_HOLDINGS as int
        } else {
            all.len() as int
        },
    ));
    r
}

/// A weight that a mix shows: at least 0.05, and a number.
pub open spec fn shows_in_mix(key: int) -> bool {
    MIX_FLOOR_KEY <= key <= INFINITY_KEY
}

/// The places of the buckets that a mix shows, the heaviest first; the tiny
/// residual ones are dropped.
pub fn mix_order(keys: &Vec<i64>) -> (r: Vec<usize>)
    ensures
        in_rank_order(keys@, r@),
        forall|i: int| 0 <= i < r@.len() ==> shows_in_mix(keys@[(#[trigger] r@[i]) as int] as int),
        forall|k: usize|
            k < keys@.len() && shows_in_mix(keys@[k as int] as int) ==> #[trigger] r@.contains(k),
{
    let all = rank_descending(keys);
    let mut out: Vec<usize> = Vec::new();
    let ghost mut from: Seq<int> = Seq::empty();
    let mut i: usize = 0;
    while i < all.len()
        invariant
            i <= all@.len(),
            is_ranking(keys@, all@),
            from.len() == out@.len(),
            forall|j: int|
                0 <= j < from.len() ==> 0 <= (#[trigger] from[j]) < i && out@[j] == all@[from[j]],
            forall|a: int, b: int| 0 <= a < b < from.len() ==> from[a] < from[b],
            forall|j: int|
                0 <= j < out@.len() ==> shows_in_mix(keys@[(#[trigger] out@[j]) as int] as int),
            forall|j: int|
                0 <= j < i && shows_in_mix(keys@[(#[trigger] all@[j]) as int] as int)
                    ==> out@.contains(all@[j]),
        decreases all.len() - i,
    {
        let k: i64 = keys[all[i]];
        let ghost before = out@;
        if MIX_FLOOR_KEY <= k && k <= INFINITY_KEY {
            out.push(all[i]);
            proof {
                from = from.push(i as int);
                assert(out@[out@.len() - 1] == all@[i as int]);
                assert forall|j: int|
                    0 <= j < i + 1 && shows_in_mix(
                        keys@[(#[trigger] all@[j]) as int] as int,
                    ) implies out@.contains(all@[j]) by {
                    if j < i {
                        assert(before.contains(all@[j]));
                        let w = choose|w: int| 0 <= w < before.len() && before[w] == all@[j];
                        assert(out@[w] == all@[j]);
                    }
                }
            }
        }
        i += 1;
    }
    proof {
        assert forall|a: int, b: int| 0 <= a < b < out@.len() implies ranks_before(
            keys@,
            #[trigger] out@[a] as int,
            #[trigger] out@[b] as int,
        ) by {
            assert(from[a] < from[b]);
            assert(out@[a] == all@[from[a]] && out@[b] == all@[from[b]]);
        }
        assert forall|j: int| 0 <= j < out@.len() implies (#[trigger] out@[j]) < keys@.len() by {
            assert(out@[j] == all@[from[j]]);
        }
        assert forall|k: usize|
            k < keys@.len() && shows_in_mix(
                keys@[k as int] as int,
            ) implies #[trigger] out@.contains(k) by {
            law_ranking_holds_every_place(keys@, all@, k);
        }
    }
    out
}

/// A ranking lists every place of its keys.
pub proof fn law_ranking_holds_every_place(keys: Seq<i64>, r: Seq<usize>, k: usize)
    requires
        is_ranking(keys, r),
        k < keys.len(),
    ensures
        r.contains(k),
{
    let places = r.map_values(|x: usize| x as int);
    assert(places.no_duplicates()) by {
        assert forall|i: int, j: int|
            0 <= i < places.len() && 0 <= j < places.len() && i != j implies places[i]
            != places[j] by {
            if i < j {
                assert(ranks_before(keys, r[i] as int, r[j] as int));
            } else {
                assert(ranks_before(keys, r[j] as int, r[i] as int));
            }
        }
    }
    let n = keys.len() as int;
    let listed = places.to_set();
    let range = vstd::set_lib::set_int_range(0, n);
    places.unique_seq_to_set();
    vstd::set_lib::lemma_int_range(0, n);
    assert(listed.subset_of(range)) by {
        assert forall|x: int| listed.contains(x) implies range.contains(x) by {
            let i = choose|i: int| 0 <= i < places.len() && places[i] == x;
            assert(r[i] < keys.len());
        }
    }
    vstd::set_lib::lemma_subset_equality(listed, range);
    assert(range.contains(k as int));
    assert(places.contains(k as int));
    let i = choose|i: int| 0 <= i < places.len() && places[i] == k as int;
    assert(r[i] == k);
}

/// There is only one ranking of given keys.
pub proof fn law_ranking_unique(keys: Seq<i64>, a: Seq<usize>, b: Seq<usize>)
    requires
        is_ranking(keys, a),
        is_ranking(keys, b),
    ensures
        a == b,
{
    lemma_ranking_prefix(keys, a, b, a.len() as int);
    assert(a =~= b);
}

proof fn lemma_ranking_prefix(keys: Seq<i64>, a: Seq<usize>, b: Seq<usize>, n: int)
    requires
        is_ranking(keys, a),
        is_ranking(keys, b),
        0 <= n <= a.len(),
    ensures
        forall|i: int| 0 <= i < n ==> a[i] == b[i],
    decreases n,
{
    if n > 0 {
        lemma_ranking_prefix(keys, a, b, n - 1);
        let x = a[n - 1];
        let y = b[n - 1];
        if x != y {
            law_ranking_holds_every_place(keys, b, x);
            law_ranking_holds_every_place(keys, a, y);
            let p = choose|p: int| 0 <= p < b.len() && b[p] == x;
            let q = choose|q: int| 0 <= q < a.len() && a[q] == y;
            if p < n - 1 {
                assert(a[p] == x);
                assert(ranks_before(keys, a[p] as int, a[n - 1] as int));
            } else if q < n - 1 {
                assert(b[q] == y);
                assert(ranks_before(keys, b[q] as int, b[n - 1] as int));
            } else {
                assert(ranks_before(keys, b[n - 1] as int, b[p] as int));
                assert(ranks_before(keys, a[n - 1] as int, a[q] as int));
            }
        }
    }
}

// ── buckets ────────────────────────────────────────────────────────────────

/// The positions of one bucket.
pub struct Bucket {
    pub label: String,
    pub members: Vec<usize>,
}

/// `members` lists the places of `label` among `labels`, in order.
pub open spec fn lists_places(labels: Seq<String>, label: Seq<char>, members: Seq<usize>) -> bool {
    &&& forall|i: int|
        0 <= i < members.len() ==> (#[trigger] members[i]) < labels.len()
            && labels[members[i] as int]@ == label
    &&& forall|i: int, j: int| 0 <= i < j < members.len() ==> members[i] < members[j]
    &&& forall|k: usize|
        k < labels.len() && labels[k as int]@ == label ==> #[trigger] members.contains(k)
}

/// The buckets of `labels` in the order in which they first occur: each label
/// once, with the places where it stands.
pub open spec fn are_buckets(labels: Seq<String>, buckets: Seq<Bucket>) -> bool {
    &&& forall|b: int|
        0 <= b < buckets.len() ==> (#[trigger] buckets[b]).members@.len() > 0 && lists_places(
            labels,
            buckets[b].label@,
            buckets[b].members@,
        )
    &&& forall|a: int, b: int|
        0 <= a < b < buckets.len() ==> (#[trigger] buckets[a]).members@[0] < (
        #[trigger] buckets[b]).members@[0]
    &&& forall|k: int|
        0 <= k < labels.len() ==> exists|b: int|
            0 <= b < buckets.len() && (#[trigger] buckets[b]).label@ == (#[trigger] labels[k])@
}

proof fn lemma_lists_places_extend(
    labels: Seq<String>,
    next: String,
    label: Seq<char>,
    members: Seq<usize>,
)
    requires
        lists_places(labels, label, members),
        labels.len() < usize::MAX,
    ensures
        next@ != label ==> lists_places(labels.push(next), label, members),
        next@ == label ==> lists_places(
            labels.push(next),
            label,
            members.push(labels.len() as usize),
        ),
{
    let more = labels.push(next);
    let n = labels.len() as usize;
    let grown = members.push(n);
    if next@ != label {
        assert forall|k: usize|
            k < more.len() && more[k as int]@ == label implies #[trigger] members.contains(k) by {
            assert(k != n);
            assert(more[k as int] == labels[k as int]);
        }
        assert forall|i: int| 0 <= i < members.len() implies (#[trigger] members[i]) < more.len()
            && more[members[i] as int]@ == label by {}
    } else {
        assert forall|k: usize|
            k < more.len() && more[k as int]@ == label implies #[trigger] grown.contains(k) by {
            if k == n {
                assert(grown[members.len() as int] == k);
            } else {
                assert(more[k as int] == labels[k as int]);
                assert(members.contains(k));
                let w = choose|w: int| 0 <= w < members.len() && members[w] == k;
                assert(grown[w] == k);
            }
        }
        assert forall|i: int| 0 <= i < grown.len() implies (#[trigger] grown[i]) < more.len()
            && more[grown[i] as int]@ == label by {
            if i < members.len() {
                assert(grown[i] == members[i]);
            }
        }
        assert forall|i: int, j: int| 0 <= i < j < grown.len() implies grown[i] < grown[j] by {
            assert(grown[i] == members[i]);
            assert(members[i] < labels.len());
        }
    }
}

/// Sorts positions into their buckets. Every label has one: the positions whose
/// sector or country is not given make up an "Unknown" bucket like any other,
/// and it stays in the mix.
pub fn group_positions(labels: &Vec<String>) -> (r: Vec<Bucket>)
    ensures
        are_buckets(labels@, r@),
{
    let mut out: Vec<Bucket> = Vec::new();
    let mut i: usize = 0;
    while i < labels.len()
        invariant
            i <= labels@.len(),
            are_buckets(labels@.take(i as int), out@),
        decreases labels.len() - i,
    {
        let ghost seen = labels@.take(i as int);
        let ghost next = labels@[i as int];
        let ghost before = out@;
        assert(labels@.take(i + 1) =~= seen.push(next));
        let mut at: usize = 0;
        while at < out.len() && !same(out[at].label.as_str(), labels[i].as_str())
            invariant
                i < labels@.len(),
                out@ == before,
                at <= out@.len(),
                forall|b: int|
                    0 <= b < at ==> (#[trigger] out@[b]).label@ != labels@[i as int]@,
            decreases out.len() - at,
        {
            at += 1;
        }
        proof {
            assert forall|b: int| 0 <= b < before.len() implies ({
                let m = (#[trigger] before[b]).members@;
                let l = before[b].label@;
                (next@ != l ==> lists_places(seen.push(next), l, m)) && (next@ == l ==> lists_places(
                    seen.push(next),
                    l,
                    m.push(i),
                ))
            }) by {
                lemma_lists_places_extend(seen, next, before[b].label@, before[b].members@);
            }
        }
        if at < out.len() {
            let mut bucket = Bucket { label: String::new(), members: Vec::new() };
            std::mem::swap(&mut bucket, &mut out[at]);
            bucket.members.push(i);
            out.set(at, bucket);
            proof {
                let l = before[at as int].label@;
                assert forall|b: int| 0 <= b < before.len() && b != at implies (
                #[trigger] before[b]).label@ != next@ by {
                    if before[b].label@ == next@ {
                        // Two buckets of one label would start at the same place.
                        let p = before[b].members@[0];
                        let q = before[at as int].members@[0];
                        assert(lists_places(seen, l, before[at as int].members@));
                        assert(lists_places(seen, l, before[b].members@));
                        assert(before[at as int].members@.contains(p));
                        assert(before[b].members@.contains(q));
                        let u = choose|u: int|
                            0 <= u < before[at as int].members@.len()
                                && before[at as int].members@[u] == p;
                        let v = choose|v: int|
                            0 <= v < before[b].members@.len() && before[b].members@[v] == q;
                        assert(q <= p);
                        assert(p <= q);
                    }
                }
                assert(out@[at as int].label@ == l);
                assert(out@[at as int].members@ == before[at as int].members@.push(i));
                assert forall|b: int| 0 <= b < out@.len() implies (
                #[trigger] out@[b]).members@.len() > 0 && lists_places(
                    seen.push(next),
                    out@[b].label@,
                    out@[b].members@,
                ) && out@[b].members@[0] == before[b].members@[0] && out@[b].label@
                    == before[b].label@ by {
                    if b != at {
                        assert(out@[b] == before[b]);
                    }
                }
                assert forall|k: int| 0 <= k < seen.push(next).len() implies exists|b: int|
                    0 <= b < out@.len() && (#[trigger] out@[b]).label@ == (#[trigger] seen.push(
                        next,
                    )[k])@ by {
                    if k == i {
                        assert(out@[at as int].label@ == seen.push(next)[k]@);
                    } else {
                        let w = choose|w: int|
                            0 <= w < before.len() && (#[trigger] before[w]).label@ == seen[k]@;
                        assert(out@[w].label@ == seen.push(next)[k]@);
                    }
                }
                assert forall|a: int, b: int| 0 <= a < b < out@.len() implies (
                #[trigger] out@[a]).members@[0] < (#[trigger] out@[b]).members@[0] by {
                    assert(before[a].members@[0] < before[b].members@[0]);
                }
            }
        } else {
            let mut members: Vec<usize> = Vec::new();
            members.push(i);
            let bucket = Bucket { label: labels[i].clone(), members };
            out.push(bucket);
            proof {
                let n = before.len() as int;
                assert(out@[n].members@ =~= Seq::<usize>::empty().push(i));
                assert forall|k: int| 0 <= k < i implies (#[trigger] seen[k])@ != next@ by {
                    let w = choose|w: int|
                        0 <= w < before.len() && (#[trigger] before[w]).label@ == seen[k]@;
                    assert(before[w].label@ != next@);
                }
                assert(lists_places(seen, next@, Seq::<usize>::empty())) by {
                    assert forall|k: usize| k < seen.len() && seen[k as int]@ == next@ implies
                        #[trigger] Seq::<usize>::empty().contains(k) by {
                        assert(seen[k as int]@ != next@);
                    }
                }
                lemma_lists_places_extend(seen, next, next@, Seq::empty());
                assert forall|b: int| 0 <= b < out@.len() implies (
                #[trigger] out@[b]).members@.len() > 0 && lists_places(
                    seen.push(next),
                    out@[b].label@,
                    out@[b].members@,
                ) by {
                    if b < n {
                        assert(out@[b] == before[b]);
                        assert(before[b].label@ != next@);
                    }
                }
                assert forall|k: int| 0 <= k < seen.push(next).len() implies exists|b: int|
                    0 <= b < out@.len() && (#[trigger] out@[b]).label@ == (#[trigger] seen.push(
                        next,
                    )[k])@ by {
                    if k == i {
                        assert(out@[n].label@ == seen.push(next)[k]@);
                    } else {
                        let w = choose|w: int|
                            0 <= w < before.len() && (#[trigger] before[w]).label@ == seen[k]@;
                        assert(out@[w].label@ == seen.push(next)[k]@);
                    }
                }
                assert forall|a: int, b: int| 0 <= a < b < out@.len() implies (
                #[trigger] out@[a]).members@[0] < (#[trigger] out@[b]).members@[0] by {
                    assert(out@[a] == before[a]);
                    assert(lists_places(seen, before[a].label@, before[a].members@));
                    assert(before[a].members@[0] < seen.len());
                    if b < n {
                        assert(out@[b] == before[b]);
                    }
                }
            }
        }
        i += 1;
    }
    assert(labels@.take(labels@.len() as int) =~= labels@);
    out
}

/// The keys order as the numbers do: the patterns without a sign upwards, those
/// with a sign downwards and below all others.
pub proof fn law_order_of_keys(a: u64, b: u64)
    ensures
        a < b < 0x8000_0000_0000_0000 ==> 0 <= order_key(a as int) < order_key(b as int),
        0x8000_0000_0000_0000 <= a < b ==> order_key(b as int) < order_key(a as int) < 0,
        a < 0x8000_0000_0000_0000 <= b ==> order_key(b as int) < order_key(a as int),
{
}

/// A mix shows the weights from the pattern of 0.05 up to that of infinity.
pub proof fn law_mix_floor(bits: u64)
    ensures
        shows_in_mix(order_key(bits as int)) <==> 0x3FA9_9999_9999_999A <= bits
            <= 0x7FF0_0000_0000_0000,
{
}

} // verus!
