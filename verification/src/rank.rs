//! The ranking of the visible catalog subset: records are ordered by
//! descending fuzzy score of their name against the search text, ties
//! broken by ascending lexicographic name, and equal names by catalog
//! index, which makes the order total and the ranked sequence unique.

use vstd::prelude::*;

use crate::fuzzy::score_of;
use crate::fuzzy::score_or_zero;
use crate::icon::IconData;
use crate::icon::IconView;
use crate::text::lemma_str_le_antisymmetric;
use crate::text::lemma_str_le_total;
use crate::text::lemma_str_le_transitive;
use crate::text::str_eq;
use crate::text::str_le;
use crate::text::str_le_exec;

verus! {

/// The rank score of the record at one catalog index.
pub open spec fn spec_score(cat: Seq<IconView>, search: Seq<char>, i: usize) -> i64 {
    score_or_zero(cat[i as int].name, search)
}

/// The ranking order on catalog indices: higher score first, then
/// lexicographically smaller name, then smaller index.
pub open spec fn rank_le(cat: Seq<IconView>, search: Seq<char>, i: usize, j: usize) -> bool {
    let si = spec_score(cat, search, i);
    let sj = spec_score(cat, search, j);
    if si != sj {
        si > sj
    } else if cat[i as int].name != cat[j as int].name {
        str_le(cat[i as int].name, cat[j as int].name)
    } else {
        i <= j
    }
}

/// Any two indices are comparable.
proof fn lemma_rank_le_total(cat: Seq<IconView>, search: Seq<char>, i: usize, j: usize)
    ensures
        rank_le(cat, search, i, j) || rank_le(cat, search, j, i),
{
    lemma_str_le_total(cat[i as int].name, cat[j as int].name);
}

/// Two indices below each other are the same index.
proof fn lemma_rank_le_antisymmetric(cat: Seq<IconView>, search: Seq<char>, i: usize, j: usize)
    requires
        rank_le(cat, search, i, j),
        rank_le(cat, search, j, i),
    ensures
        i == j,
{
    if cat[i as int].name != cat[j as int].name {
        lemma_str_le_antisymmetric(cat[i as int].name, cat[j as int].name);
    }
}

/// The ranking order is transitive.
proof fn lemma_rank_le_transitive(
    cat: Seq<IconView>,
    search: Seq<char>,
    i: usize,
    j: usize,
    k: usize,
)
    requires
        rank_le(cat, search, i, j),
        rank_le(cat, search, j, k),
    ensures
        rank_le(cat, search, i, k),
{
    let ni = cat[i as int].name;
    let nj = cat[j as int].name;
    let nk = cat[k as int].name;
    let si = spec_score(cat, search, i);
    let sj = spec_score(cat, search, j);
    let sk = spec_score(cat, search, k);
    if si == sj && sj == sk {
        lemma_str_le_total(ni, ni);
        lemma_str_le_total(nj, nj);
        if ni != nj || nj != nk {
            lemma_str_le_transitive(ni, nj, nk);
            if ni == nk {
                lemma_str_le_transitive(nj, nk, ni);
                lemma_str_le_antisymmetric(ni, nj);
            }
        }
    }
}

/// Decides the ranking order between two catalog indices.
pub fn rank_le_exec(catalog: &Vec<IconData>, search: &str, i: usize, j: usize) -> (r: bool)
    requires
        i < catalog@.len(),
        j < catalog@.len(),
    ensures
        r == rank_le(catalog.deep_view(), search@, i, j),
{
    proof {
        assert(catalog.deep_view()[i as int] == catalog@[i as int]@);
        assert(catalog.deep_view()[j as int] == catalog@[j as int]@);
    }
    let si = score_of(catalog[i].name.as_str(), search);
    let sj = score_of(catalog[j].name.as_str(), search);
    if si != sj {
        si > sj
    } else if !str_eq(catalog[i].name.as_str(), catalog[j].name.as_str()) {
        str_le_exec(catalog[i].name.as_str(), catalog[j].name.as_str())
    } else {
        i <= j
    }
}

/// An index sequence that stands in ranking order.
pub open spec fn sorted_by_rank(cat: Seq<IconView>, search: Seq<char>, s: Seq<usize>) -> bool {
    forall|p: int, q: int|
        0 <= p < q < s.len() ==> rank_le(cat, search, #[trigger] s[p], #[trigger] s[q])
}

/// The sequence with one index inserted before the first element it
/// ranks at or above.
pub open spec fn insert_sorted(
    cat: Seq<IconView>,
    search: Seq<char>,
    s: Seq<usize>,
    x: usize,
) -> Seq<usize>
    decreases s.len(),
{
    if s.len() == 0 {
        seq![x]
    } else if rank_le(cat, search, x, s[0]) {
        seq![x] + s
    } else {
        seq![s[0]] + insert_sorted(cat, search, s.drop_first(), x)
    }
}

/// The index sequence in ranking order, by insertion from the left.
pub open spec fn sort_indices(cat: Seq<IconView>, search: Seq<char>, s: Seq<usize>) -> Seq<usize>
    decreases s.len(),
{
    if s.len() == 0 {
        s
    } else {
        insert_sorted(cat, search, sort_indices(cat, search, s.drop_last()), s.last())
    }
}

/// Inserting grows the sequence by the new index, adds nothing else,
/// and keeps it in ranking order.
proof fn lemma_insert_sorted_ensures(
    cat: Seq<IconView>,
    search: Seq<char>,
    s: Seq<usize>,
    x: usize,
)
    requires
        sorted_by_rank(cat, search, s),
    ensures
        insert_sorted(cat, search, s, x).len() == s.len() + 1,
        forall|k: int|
            0 <= k < insert_sorted(cat, search, s, x).len() ==> (#[trigger] insert_sorted(
                cat,
                search,
                s,
                x,
            )[k] == x || s.contains(insert_sorted(cat, search, s, x)[k])),
        sorted_by_rank(cat, search, insert_sorted(cat, search, s, x)),
        insert_sorted(cat, search, s, x).to_multiset() == s.to_multiset().insert(x),
    decreases s.len(),
{
    broadcast use vstd::seq_lib::group_to_multiset_ensures;

    let ins = insert_sorted(cat, search, s, x);
    if s.len() == 0 {
        assert(ins =~= Seq::<usize>::empty().push(x));
        assert(ins.to_multiset() =~= s.to_multiset().insert(x));
    } else if rank_le(cat, search, x, s[0]) {
        assert(ins =~= s.insert(0, x));
        assert forall|k: int| 0 <= k < ins.len() implies (#[trigger] ins[k] == x || s.contains(
            ins[k],
        )) by {
            if k > 0 {
                assert(ins[k] == s[k - 1]);
            }
        }
        assert forall|p: int, q: int| 0 <= p < q < ins.len() implies rank_le(
            cat,
            search,
            #[trigger] ins[p],
            #[trigger] ins[q],
        ) by {
            if p == 0 {
                if q > 1 {
                    lemma_rank_le_transitive(cat, search, x, s[0], s[q - 1]);
                }
            }
        }
        vstd::seq_lib::lemma_multiset_commutative(seq![x], s);
        assert(seq![x] =~= Seq::<usize>::empty().push(x));
        assert(seq![x] + s =~= ins);
        assert(ins.to_multiset() =~= s.to_multiset().insert(x));
    } else {
        let rest = s.drop_first();
        assert(forall|p: int, q: int|
            0 <= p < q < rest.len() ==> rank_le(cat, search, #[trigger] rest[p], #[trigger] rest[q]));
        lemma_insert_sorted_ensures(cat, search, rest, x);
        let sub = insert_sorted(cat, search, rest, x);
        assert(ins =~= seq![s[0]] + sub);
        assert forall|k: int| 0 <= k < ins.len() implies (#[trigger] ins[k] == x || s.contains(
            ins[k],
        )) by {
            if k > 0 {
                assert(ins[k] == sub[k - 1]);
                if sub[k - 1] != x {
                    assert(rest.contains(sub[k - 1]));
                    let m = choose|m: int| 0 <= m < rest.len() && rest[m] == sub[k - 1];
                    assert(s[m + 1] == sub[k - 1]);
                }
            } else {
                assert(s[0] == ins[0]);
            }
        }
        assert forall|p: int, q: int| 0 <= p < q < ins.len() implies rank_le(
            cat,
            search,
            #[trigger] ins[p],
            #[trigger] ins[q],
        ) by {
            if p == 0 {
                assert(ins[q] == sub[q - 1]);
                if sub[q - 1] == x {
                    lemma_rank_le_total(cat, search, x, s[0]);
                } else {
                    assert(rest.contains(sub[q - 1]));
                    let m = choose|m: int| 0 <= m < rest.len() && rest[m] == sub[q - 1];
                    assert(s[m + 1] == sub[q - 1]);
                }
            } else {
                assert(ins[p] == sub[p - 1] && ins[q] == sub[q - 1]);
            }
        }
        vstd::seq_lib::lemma_multiset_commutative(seq![s[0]], sub);
        vstd::seq_lib::lemma_multiset_commutative(seq![s[0]], rest);
        assert(seq![s[0]] =~= Seq::<usize>::empty().push(s[0]));
        assert(seq![s[0]] + rest =~= s);
        assert(ins.to_multiset() =~= s.to_multiset().insert(x)) by {
            assert(ins.to_multiset() == (seq![s[0]] + sub).to_multiset());
            assert((seq![s[0]] + sub).to_multiset() == seq![s[0]].to_multiset().add(
                sub.to_multiset(),
            ));
            assert(sub.to_multiset() == rest.to_multiset().insert(x));
            assert(s.to_multiset() == seq![s[0]].to_multiset().add(rest.to_multiset()));
            assert(seq![s[0]].to_multiset().add(rest.to_multiset().insert(x))
                =~= seq![s[0]].to_multiset().add(rest.to_multiset()).insert(x));
        }
    }
}

/// Sorting yields the same indices as a multiset, in ranking order.
pub proof fn lemma_sort_indices_ensures(cat: Seq<IconView>, search: Seq<char>, s: Seq<usize>)
    ensures
        sorted_by_rank(cat, search, sort_indices(cat, search, s)),
        sort_indices(cat, search, s).to_multiset() == s.to_multiset(),
        sort_indices(cat, search, s).len() == s.len(),
        forall|k: int|
            0 <= k < sort_indices(cat, search, s).len() ==> s.contains(
                #[trigger] sort_indices(cat, search, s)[k],
            ),
    decreases s.len(),
{
    broadcast use vstd::seq_lib::group_to_multiset_ensures;

    if s.len() > 0 {
        let prefix = s.drop_last();
        lemma_sort_indices_ensures(cat, search, prefix);
        let sorted_prefix = sort_indices(cat, search, prefix);
        lemma_insert_sorted_ensures(cat, search, sorted_prefix, s.last());
        let out = sort_indices(cat, search, s);
        assert(out == insert_sorted(cat, search, sorted_prefix, s.last()));
        assert(out.to_multiset() == sorted_prefix.to_multiset().insert(s.last()));
        assert(prefix.push(s.last()) =~= s);
        assert(s.to_multiset() == prefix.to_multiset().insert(s.last()));
        assert forall|k: int| 0 <= k < out.len() implies s.contains(#[trigger] out[k]) by {
            if out[k] == s.last() {
                assert(s[s.len() - 1] == out[k]);
            } else {
                assert(sorted_prefix.contains(out[k]));
                let m = choose|m: int|
                    0 <= m < sorted_prefix.len() && sorted_prefix[m] == out[k];
                assert(prefix.contains(out[k]));
                let m2 = choose|m2: int| 0 <= m2 < prefix.len() && prefix[m2] == out[k];
                assert(s[m2] == out[k]);
            }
        }
    }
}

/// Inserts one catalog index into a ranked sequence, keeping the rank
/// order.
fn insert_by_rank(catalog: &Vec<IconData>, search: &str, out: &mut Vec<usize>, x: usize)
    requires
        x < catalog@.len(),
        forall|k: int| 0 <= k < old(out)@.len() ==> #[trigger] old(out)@[k] < catalog@.len(),
    ensures
        final(out)@ == insert_sorted(catalog.deep_view(), search@, old(out)@, x),
{
    let ghost cat = catalog.deep_view();
    let ghost s = out@;
    let mut p: usize = 0;
    while p < out.len() && !rank_le_exec(catalog, search, x, out[p])
        invariant
            0 <= p <= out@.len(),
            out@ == s,
            x < catalog@.len(),
            cat == catalog.deep_view(),
            forall|k: int| 0 <= k < s.len() ==> #[trigger] s[k] < catalog@.len(),
            forall|k: int| 0 <= k < p ==> !rank_le(cat, search@, x, #[trigger] s[k]),
        decreases out@.len() - p,
    {
        p = p + 1;
    }
    proof {
        lemma_insert_sorted_at(cat, search@, s, x, p as int);
    }
    out.insert(p, x);
    proof {
        assert(out@ =~= s.take(p as int) + seq![x] + s.skip(p as int));
    }
}

/// Where the scan stops is where the definition inserts.
proof fn lemma_insert_sorted_at(
    cat: Seq<IconView>,
    search: Seq<char>,
    s: Seq<usize>,
    x: usize,
    p: int,
)
    requires
        0 <= p <= s.len(),
        forall|k: int| 0 <= k < p ==> !rank_le(cat, search, x, #[trigger] s[k]),
        p < s.len() ==> rank_le(cat, search, x, s[p]),
    ensures
        insert_sorted(cat, search, s, x) == s.take(p) + seq![x] + s.skip(p),
    decreases p,
{
    if p == 0 {
        if s.len() == 0 {
            assert(insert_sorted(cat, search, s, x) =~= s.take(0) + seq![x] + s.skip(0));
        } else {
            assert(rank_le(cat, search, x, s[0]));
            assert(seq![x] + s =~= s.take(0) + seq![x] + s.skip(0));
        }
    } else {
        assert(!rank_le(cat, search, x, s[0]));
        let rest = s.drop_first();
        assert(forall|k: int| 0 <= k < p - 1 ==> !rank_le(cat, search, x, #[trigger] rest[k]));
        assert(p - 1 < rest.len() ==> rest[p - 1] == s[p]);
        lemma_insert_sorted_at(cat, search, rest, x, p - 1);
        assert(seq![s[0]] + (rest.take(p - 1) + seq![x] + rest.skip(p - 1)) =~= s.take(p)
            + seq![x] + s.skip(p));
    }
}

/// Sorts catalog indices into ranking order: descending fuzzy score of
/// the record name against the search text, ties by ascending name,
/// then by index.
pub fn rank_indices(catalog: &Vec<IconData>, search: &str, items: &Vec<usize>) -> (r: Vec<usize>)
    requires
        forall|k: int| 0 <= k < items@.len() ==> #[trigger] items@[k] < catalog@.len(),
    ensures
        r@ == sort_indices(catalog.deep_view(), search@, items@),
        forall|k: int| 0 <= k < r@.len() ==> #[trigger] r@[k] < catalog@.len(),
{
    let ghost cat = catalog.deep_view();
    let mut out: Vec<usize> = Vec::new();
    let mut i: usize = 0;
    proof {
        assert(items@.take(0) =~= Seq::<usize>::empty());
        assert(out@ =~= sort_indices(cat, search@, items@.take(0)));
    }
    while i < items.len()
        invariant
            0 <= i <= items@.len(),
            cat == catalog.deep_view(),
            forall|k: int| 0 <= k < items@.len() ==> #[trigger] items@[k] < catalog@.len(),
            out@ == sort_indices(cat, search@, items@.take(i as int)),
            forall|k: int| 0 <= k < out@.len() ==> #[trigger] out@[k] < catalog@.len(),
        decreases items@.len() - i,
    {
        insert_by_rank(catalog, search, &mut out, items[i]);
        proof {
            assert(items@.take(i + 1).drop_last() =~= items@.take(i as int));
            assert(items@.take(i + 1).last() == items@[i as int]);
            assert(out@ == sort_indices(cat, search@, items@.take(i + 1)));
            lemma_sort_indices_ensures(cat, search@, items@.take(i + 1));
            assert forall|k: int| 0 <= k < out@.len() implies #[trigger] out@[k]
                < catalog@.len() by {
                assert(items@.take(i + 1).contains(out@[k]));
                let m = choose|m: int|
                    0 <= m < i + 1 && #[trigger] items@.take(i + 1)[m] == out@[k];
                assert(items@[m] == out@[k]);
            }
        }
        i = i + 1;
    }
    proof {
        assert(items@.take(items@.len() as int) =~= items@);
    }
    out
}

} // verus!
