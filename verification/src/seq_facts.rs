//! Facts about sequences that the proofs of this library share.

use vstd::prelude::*;

verus! {

/// The positions `0..n` in ascending order.
pub open spec fn positions(n: nat) -> Seq<int> {
    Seq::new(n, |j: int| j)
}

/// A value is held by two sequences joined iff one of them holds it.
pub proof fn lemma_concat_contains<A>(a: Seq<A>, b: Seq<A>, x: A)
    ensures
        (a + b).contains(x) <==> a.contains(x) || b.contains(x),
{
    if (a + b).contains(x) {
        let k = choose|k: int| 0 <= k < (a + b).len() && (a + b)[k] == x;
        if k < a.len() {
            assert(a[k] == x);
        } else {
            assert(b[k - a.len()] == x);
        }
    }
    if a.contains(x) {
        let k = choose|k: int| 0 <= k < a.len() && a[k] == x;
        assert((a + b)[k] == x);
    }
    if b.contains(x) {
        let k = choose|k: int| 0 <= k < b.len() && b[k] == x;
        assert((a + b)[a.len() + k] == x);
    }
}

/// Two sequences without repeats that share no value have none when
/// joined.
pub proof fn lemma_concat_no_duplicates<A>(a: Seq<A>, b: Seq<A>)
    requires
        a.no_duplicates(),
        b.no_duplicates(),
        forall|x: A| a.contains(x) ==> !b.contains(x),
    ensures
        (a + b).no_duplicates(),
{
    assert forall|i: int, j: int|
        0 <= i < (a + b).len() && 0 <= j < (a + b).len() && i != j implies (a + b)[i] != (a
        + b)[j] by {
        let n = a.len() as int;
        if i < n && j >= n {
            assert(a.contains(a[i]));
            assert(b.contains(b[j - n]));
        }
        if j < n && i >= n {
            assert(a.contains(a[j]));
            assert(b.contains(b[i - n]));
        }
    }
}

/// What sequences hold one after the other is what some of them holds.
pub proof fn lemma_flatten_contains<A>(rows: Seq<Seq<A>>, x: A)
    ensures
        rows.flatten().contains(x) <==> exists|g: int|
            0 <= g < rows.len() && #[trigger] rows[g].contains(x),
    decreases rows.len(),
{
    if rows.len() > 0 {
        let rest = rows.drop_first();
        lemma_flatten_contains(rest, x);
        lemma_concat_contains(rows.first(), rest.flatten(), x);
        if rows.flatten().contains(x) && !rows.first().contains(x) {
            let g = choose|g: int| 0 <= g < rest.len() && #[trigger] rest[g].contains(x);
            assert(rows[g + 1].contains(x));
        }
        if exists|g: int| 0 <= g < rows.len() && #[trigger] rows[g].contains(x) {
            let g = choose|g: int| 0 <= g < rows.len() && #[trigger] rows[g].contains(x);
            if g > 0 {
                assert(rest[g - 1].contains(x));
            }
        }
    }
}

/// Sequences without repeats that share no value pairwise have none when
/// put one after the other.
pub proof fn lemma_flatten_no_duplicates<A>(rows: Seq<Seq<A>>)
    requires
        forall|g: int| 0 <= g < rows.len() ==> (#[trigger] rows[g]).no_duplicates(),
        forall|g: int, h: int, x: A|
            0 <= g < h < rows.len() && #[trigger] rows[g].contains(x) ==> !#[trigger] rows[h].contains(
                x,
            ),
    ensures
        rows.flatten().no_duplicates(),
    decreases rows.len(),
{
    if rows.len() > 0 {
        let rest = rows.drop_first();
        assert forall|g: int| 0 <= g < rest.len() implies (#[trigger] rest[g]).no_duplicates() by {
            assert(rest[g] == rows[g + 1]);
        }
        assert forall|g: int, h: int, x: A|
            0 <= g < h < rest.len() && #[trigger] rest[g].contains(x) implies !#[trigger] rest[h].contains(
            x,
        ) by {
            assert(rows[g + 1].contains(x));
            assert(rest[h] == rows[h + 1]);
        }
        lemma_flatten_no_duplicates(rest);
        assert forall|x: A| rows.first().contains(x) implies !rest.flatten().contains(x) by {
            lemma_flatten_contains(rest, x);
            if rest.flatten().contains(x) {
                let g = choose|g: int| 0 <= g < rest.len() && #[trigger] rest[g].contains(x);
                assert(rows[0].contains(x));
                assert(rows[g + 1].contains(x));
            }
        }
        lemma_concat_no_duplicates(rows.first(), rest.flatten());
    }
}

/// What is picked from the positions below `n` is what some position
/// gives.
pub proof fn lemma_picked_contains<B>(n: nat, pick: spec_fn(int) -> Option<B>, x: B)
    ensures
        positions(n).filter_map(pick).contains(x) <==> exists|k: int|
            0 <= k < n && #[trigger] pick(k) == Some(x),
    decreases n,
{
    let all = positions(n);
    if n > 0 {
        let before = positions((n - 1) as nat);
        assert(all.drop_last() =~= before);
        lemma_picked_contains(before.len(), pick, x);
        let last = all.last();
        assert(last == n - 1);
        let tail = match pick(last) {
            Some(v) => seq![v],
            None => Seq::<B>::empty(),
        };
        assert(all.filter_map(pick) =~= before.filter_map(pick) + tail);
        lemma_concat_contains(before.filter_map(pick), tail, x);
        if tail.contains(x) {
            assert(tail[0] == x);
            assert(pick(n - 1) == Some(x));
        }
        if pick(n - 1) == Some(x) {
            assert(tail[0] == x);
        }
        if exists|k: int| 0 <= k < n && #[trigger] pick(k) == Some(x) {
            let k = choose|k: int| 0 <= k < n && #[trigger] pick(k) == Some(x);
            if k < n - 1 {
                assert(before.filter_map(pick).contains(x));
            }
        }
    }
}

/// What is picked from the positions below `n` holds nothing twice if no
/// two positions give the same.
pub proof fn lemma_picked_no_duplicates<B>(n: nat, pick: spec_fn(int) -> Option<B>)
    requires
        forall|j: int, k: int|
            0 <= j < k < n && (#[trigger] pick(j)) is Some ==> pick(j) != #[trigger] pick(k),
    ensures
        positions(n).filter_map(pick).no_duplicates(),
    decreases n,
{
    let all = positions(n);
    if n > 0 {
        let before = positions((n - 1) as nat);
        assert(all.drop_last() =~= before);
        lemma_picked_no_duplicates(before.len(), pick);
        let last = all.last();
        assert(last == n - 1);
        let tail = match pick(last) {
            Some(v) => seq![v],
            None => Seq::<B>::empty(),
        };
        assert(all.filter_map(pick) =~= before.filter_map(pick) + tail);
        assert forall|x: B| before.filter_map(pick).contains(x) implies !tail.contains(x) by {
            lemma_picked_contains(before.len(), pick, x);
            if tail.contains(x) {
                assert(tail[0] == x);
                let k = choose|k: int| 0 <= k < n - 1 && #[trigger] pick(k) == Some(x);
                assert(pick(k) != pick(n - 1));
            }
        }
        lemma_concat_no_duplicates(before.filter_map(pick), tail);
    }
}

/// Picking from a sequence gives the sequence itself if every entry is
/// picked as it is.
pub proof fn lemma_filter_map_same<A>(s: Seq<A>, pick: spec_fn(A) -> Option<A>)
    requires
        forall|k: int| 0 <= k < s.len() ==> pick(#[trigger] s[k]) == Some(s[k]),
    ensures
        s.filter_map(pick) == s,
    decreases s.len(),
{
    if s.len() > 0 {
        let before = s.drop_last();
        assert forall|k: int| 0 <= k < before.len() implies pick(#[trigger] before[k]) == Some(
            before[k],
        ) by {
            assert(before[k] == s[k]);
        }
        lemma_filter_map_same(before, pick);
        assert(pick(s.last()) == Some(s.last()));
        assert(s.filter_map(pick) =~= before + seq![s.last()]);
        assert(before + seq![s.last()] =~= s);
    } else {
        assert(s.filter_map(pick) =~= s);
    }
}

} // verus!
