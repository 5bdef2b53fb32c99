//! Putting rows in order.

use vstd::prelude::*;

verus! {

/// Rows that go one before the other.
pub trait Ranked: Sized {
    /// This row goes before the other one.
    spec fn precedes(&self, other: &Self) -> bool;

    fn comes_before(&self, other: &Self) -> (r: bool)
        ensures
            r == self.precedes(other),
    ;

    /// No row goes before itself, what goes before one row goes before all behind it, and a
    /// third row is behind the first of two or before the second.
    proof fn order_is_strict(a: &Self, b: &Self, c: &Self)
        ensures
            !a.precedes(a),
            a.precedes(b) && b.precedes(c) ==> a.precedes(c),
            a.precedes(b) ==> a.precedes(c) || c.precedes(b),
    ;
}

/// The places list the wanted ones of the first `n` rows, each once, in their order. Of two
/// rows neither of which goes before the other, the one that came first stays first.
pub open spec fn ranks_first<T: Ranked>(
    places: Seq<usize>,
    rows: Seq<T>,
    wanted: Seq<bool>,
    n: int,
) -> bool {
    &&& forall|i: int|
        0 <= i < places.len() ==> (#[trigger] places[i]) < n && wanted[places[i] as int]
    &&& forall|i: int, j: int|
        0 <= i < j < places.len() ==> {
            let (a, b) = (#[trigger] places[i], #[trigger] places[j]);
            a != b && !rows[b as int].precedes(&rows[a as int]) && (rows[a as int].precedes(
                &rows[b as int],
            ) || a < b)
        }
    &&& forall|k: int|
        0 <= k < n && #[trigger] wanted[k] ==> exists|i: int|
            0 <= i < places.len() && #[trigger] places[i] == k
}

/// The places list the wanted rows in their order.
pub open spec fn ranks<T: Ranked>(places: Seq<usize>, rows: Seq<T>, wanted: Seq<bool>) -> bool {
    ranks_first(places, rows, wanted, rows.len() as int)
}

fn insert_place<T: Ranked>(places: &mut Vec<usize>, rows: &Vec<T>, wanted: &Vec<bool>, k: usize)
    requires
        wanted@.len() == rows@.len(),
        k < rows@.len(),
        wanted@[k as int],
        ranks_first(old(places)@, rows@, wanted@, k as int),
    ensures
        ranks_first(final(places)@, rows@, wanted@, k + 1),
{
    let ghost was = places@;
    let ghost all = rows@;
    let mut at: usize = 0;
    while at < places.len() && !rows[k].comes_before(&rows[places[at]])
        invariant
            at <= was.len(),
            places@ == was,
            k < rows@.len(),
            wanted@.len() == rows@.len(),
            ranks_first(was, rows@, wanted@, k as int),
            forall|i: int|
                0 <= i < at ==> !rows@[k as int].precedes(&rows@[(#[trigger] was[i]) as int]),
        decreases was.len() - at,
    {
        at += 1;
    }
    places.insert(at, k);
    proof {
        let new = places@;
        let spot = at as int;
        let row = all[k as int];
        assert forall|i: int, j: int| 0 <= i < j < new.len() implies {
            let (a, b) = (#[trigger] new[i], #[trigger] new[j]);
            a != b && !all[b as int].precedes(&all[a as int]) && (all[a as int].precedes(
                &all[b as int],
            ) || a < b)
        } by {
            let p = if i < spot { i } else { i - 1 };
            let q = if j < spot { j } else { j - 1 };
            if i != spot {
                assert(new[i] == was[p]);
            }
            if j != spot {
                assert(new[j] == was[q]);
            }
            if i != spot && j != spot {
                let x = was[p];
                let y = was[q];
                assert(x != y);
            } else if i == spot {
                // The new row goes before the one at its place, and so before all behind that.
                let first = all[was[spot] as int];
                let later = all[was[q] as int];
                assert(row.precedes(&first));
                if q > spot {
                    let x = was[spot];
                    let y = was[q];
                    assert(!later.precedes(&first));
                }
                T::order_is_strict(&first, &first, &first);
                T::order_is_strict(&row, &first, &later);
                T::order_is_strict(&row, &later, &row);
            } else {
                assert(!row.precedes(&all[was[p] as int]));
                assert(was[p] < k);
            }
        }
        assert forall|m: int| 0 <= m < k + 1 && #[trigger] wanted@[m] implies exists|i: int|
            0 <= i < new.len() && #[trigger] new[i] == m by {
            if m == k {
                assert(new[spot] == m);
            } else {
                let i = choose|i: int| 0 <= i < was.len() && #[trigger] was[i] == m;
                if i < spot {
                    assert(new[i] == m);
                } else {
                    assert(new[i + 1] == m);
                }
            }
        }
        assert forall|i: int| 0 <= i < new.len() implies (#[trigger] new[i]) < k + 1
            && wanted@[new[i] as int] by {
            if i < spot {
                assert(new[i] == was[i]);
            } else if i > spot {
                assert(new[i] == was[i - 1]);
            }
        }
    }
}

/// The places of the wanted rows, in order.
pub fn rank<T: Ranked>(rows: &Vec<T>, wanted: &Vec<bool>) -> (r: Vec<usize>)
    requires
        wanted@.len() == rows@.len(),
    ensures
        ranks(r@, rows@, wanted@),
{
    let mut places: Vec<usize> = Vec::new();
    let mut k: usize = 0;
    while k < rows.len()
        invariant
            k <= rows@.len(),
            wanted@.len() == rows@.len(),
            ranks_first(places@, rows@, wanted@, k as int),
        decreases rows.len() - k,
    {
        if wanted[k] {
            insert_place(&mut places, rows, wanted, k);
        }
        k += 1;
    }
    places
}

/// The first places, as many as the limit allows.
pub open spec fn limited(places: Seq<usize>, limit: usize) -> Seq<usize> {
    places.take(
        if places.len() > limit {
            limit as int
        } else {
            places.len() as int
        },
    )
}

pub fn limit_places(places: Vec<usize>, limit: usize) -> (r: Vec<usize>)
    ensures
        r@ == limited(places@, limit),
{
    let mut r: Vec<usize> = Vec::new();
    let mut i: usize = 0;
    while i < places.len() && i < limit
        invariant
            i <= places@.len(),
            i <= limit,
            r@ == places@.take(i as int),
        decreases places.len() - i,
    {
        r.push(places[i]);
        i += 1;
        assert(places@.take(i as int) =~= places@.take(i - 1).push(places@[i - 1]));
    }
    r
}

/// What is kept was there and is wanted.
pub proof fn lemma_kept_rows<T>(rows: Seq<T>, keep: spec_fn(T) -> bool)
    ensures
        forall|i: int|
            0 <= i < rows.filter(keep).len() ==> rows.contains(#[trigger] rows.filter(keep)[i]) && keep(
                rows.filter(keep)[i],
            ),
    decreases rows.len(),
{
    reveal(Seq::filter);
    if rows.len() > 0 {
        let rest = rows.drop_last();
        lemma_kept_rows(rest, keep);
        assert forall|i: int| 0 <= i < rows.filter(keep).len() implies rows.contains(
            #[trigger] rows.filter(keep)[i],
        ) && keep(rows.filter(keep)[i]) by {
            if i < rest.filter(keep).len() {
                let row = rest.filter(keep)[i];
                assert(rest.contains(row));
                let j = choose|j: int| 0 <= j < rest.len() && rest[j] == row;
                assert(rows[j] == row);
            } else {
                assert(rows[rows.len() - 1] == rows.last());
            }
        }
    }
}

/// Where no two rows clash, no two of those that are kept do.
pub proof fn lemma_kept_apart<T>(rows: Seq<T>, keep: spec_fn(T) -> bool, clash: spec_fn(T, T) -> bool)
    requires
        forall|i: int, j: int| 0 <= i < j < rows.len() ==> !#[trigger] clash(rows[i], rows[j]),
    ensures
        forall|i: int, j: int|
            0 <= i < j < rows.filter(keep).len() ==> !#[trigger] clash(
                rows.filter(keep)[i],
                rows.filter(keep)[j],
            ),
    decreases rows.len(),
{
    reveal(Seq::filter);
    if rows.len() > 0 {
        let rest = rows.drop_last();
        assert forall|i: int, j: int| 0 <= i < j < rest.len() implies !#[trigger] clash(
            rest[i],
            rest[j],
        ) by {
            assert(!clash(rows[i], rows[j]));
        }
        lemma_kept_apart(rest, keep, clash);
        lemma_kept_rows(rest, keep);
        assert forall|i: int, j: int| 0 <= i < j < rows.filter(keep).len() implies !#[trigger] clash(
            rows.filter(keep)[i],
            rows.filter(keep)[j],
        ) by {
            if j < rest.filter(keep).len() {
                assert(!clash(rest.filter(keep)[i], rest.filter(keep)[j]));
            } else {
                let row = rest.filter(keep)[i];
                assert(rest.contains(row));
                let k = choose|k: int| 0 <= k < rest.len() && rest[k] == row;
                assert(!clash(rows[k], rows[rows.len() - 1]));
            }
        }
    }
}

/// Keeps the wanted rows in their order, and drops the others.
pub fn keep_rows<T>(rows: &mut Vec<T>, wanted: &Vec<bool>)
    requires
        wanted@.len() == old(rows)@.len(),
    ensures
        forall|keep: spec_fn(T) -> bool|
            (forall|i: int| 0 <= i < old(rows)@.len() ==> #[trigger] wanted@[i] == keep(old(rows)@[i]))
                ==> final(rows)@ == #[trigger] old(rows)@.filter(keep),
{
    let ghost before = rows@;
    let mut seen: usize = 0;
    let mut i: usize = 0;
    proof {
        assert(rows@.skip(0) =~= before.skip(0));
        assert forall|keep: spec_fn(T) -> bool| rows@.take(0) == #[trigger] before.take(0).filter(keep) by {
            reveal(Seq::filter);
            assert(before.take(0) =~= Seq::<T>::empty());
        }
    }
    while seen < wanted.len()
        invariant
            i <= seen <= before.len(),
            wanted@.len() == before.len(),
            rows@.len() == i + (before.len() - seen),
            rows@.skip(i as int) == before.skip(seen as int),
            forall|keep: spec_fn(T) -> bool|
                (forall|k: int| 0 <= k < before.len() ==> #[trigger] wanted@[k] == keep(before[k]))
                    ==> rows@.take(i as int) == #[trigger] before.take(seen as int).filter(keep),
        decreases wanted.len() - seen,
    {
        let ghost held = rows@;
        assert(held[i as int] == held.skip(i as int)[0]);
        assert(before[seen as int] == before.skip(seen as int)[0]);
        if wanted[seen] {
            i += 1;
        } else {
            let _ = rows.remove(i);
        }
        seen += 1;
        proof {
            let was = if wanted@[seen - 1] {
                i - 1
            } else {
                i as int
            };
            assert(held.skip(was).skip(1) =~= before.skip(seen as int));
            assert(rows@.skip(i as int) =~= held.skip(was).skip(1));
            assert forall|keep: spec_fn(T) -> bool|
                (forall|k: int| 0 <= k < before.len() ==> #[trigger] wanted@[k] == keep(before[k]))
                    implies rows@.take(i as int) == #[trigger] before.take(seen as int).filter(
                keep,
            ) by {
                reveal(Seq::filter);
                let all = before.take(seen as int);
                assert(all.drop_last() =~= before.take(seen - 1));
                assert(all.last() == before[seen - 1]);
                assert(held.take(was) == before.take(seen - 1).filter(keep));
                if wanted@[seen - 1] {
                    assert(rows@.take(i as int) =~= held.take(was).push(before[seen - 1]));
                } else {
                    assert(rows@.take(i as int) =~= held.take(was));
                }
            }
        }
    }
    proof {
        assert(before.take(seen as int) =~= before);
        assert(rows@.take(i as int) =~= rows@);
    }
}

/// One place is listed ahead of another: its row goes before the other one, or neither does and
/// it came first.
pub open spec fn is_ahead<T: Ranked>(rows: Seq<T>, a: int, b: int) -> bool {
    rows[a].precedes(&rows[b]) || (!rows[b].precedes(&rows[a]) && a < b)
}

proof fn lemma_ahead<T: Ranked>(rows: Seq<T>, a: int, b: int)
    ensures
        a != b ==> is_ahead(rows, a, b) || is_ahead(rows, b, a),
        !(is_ahead(rows, a, b) && is_ahead(rows, b, a)),
{
    T::order_is_strict(&rows[a], &rows[a], &rows[a]);
    T::order_is_strict(&rows[a], &rows[b], &rows[a]);
}

proof fn lemma_listed_ahead<T: Ranked>(
    places: Seq<usize>,
    rows: Seq<T>,
    wanted: Seq<bool>,
    i: int,
    j: int,
)
    requires
        ranks(places, rows, wanted),
        0 <= i < j < places.len(),
    ensures
        is_ahead(rows, places[i] as int, places[j] as int),
{
    let a = places[i];
    let b = places[j];
    assert(a != b);
}

/// The rows and what is wanted of them leave only one listing.
pub proof fn listing_is_unique<T: Ranked>(
    first: Seq<usize>,
    second: Seq<usize>,
    rows: Seq<T>,
    wanted: Seq<bool>,
)
    requires
        ranks(first, rows, wanted),
        ranks(second, rows, wanted),
    ensures
        first == second,
{
    lemma_same_start(first, second, rows, wanted, first.len() as int);
    lemma_same_start(second, first, rows, wanted, second.len() as int);
    assert(first =~= second);
}

proof fn lemma_same_start<T: Ranked>(
    first: Seq<usize>,
    second: Seq<usize>,
    rows: Seq<T>,
    wanted: Seq<bool>,
    n: int,
)
    requires
        ranks(first, rows, wanted),
        ranks(second, rows, wanted),
        0 <= n <= first.len(),
    ensures
        n <= second.len(),
        forall|i: int| 0 <= i < n ==> #[trigger] first[i] == second[i],
    decreases n,
{
    if n > 0 {
        lemma_same_start(first, second, rows, wanted, n - 1);
        let place = first[n - 1];
        assert(wanted[place as int]);
        let j = choose|j: int| 0 <= j < second.len() && #[trigger] second[j] == place;
        if j < n - 1 {
            assert(first[j] == second[j]);
            lemma_listed_ahead(first, rows, wanted, j, n - 1);
            lemma_ahead(rows, place as int, place as int);
        }
        let other = second[n - 1];
        if j > n - 1 {
            lemma_listed_ahead(second, rows, wanted, n - 1, j);
            assert(wanted[other as int]);
            let k = choose|k: int| 0 <= k < first.len() && #[trigger] first[k] == other;
            if k < n - 1 {
                assert(first[k] == second[k]);
                lemma_listed_ahead(second, rows, wanted, k, n - 1);
                lemma_ahead(rows, other as int, other as int);
            } else if k > n - 1 {
                lemma_listed_ahead(first, rows, wanted, n - 1, k);
                lemma_ahead(rows, place as int, other as int);
            }
        }
    }
}

/// A row that is added and wanted is listed, and one that goes before all others is listed first.
/// What was listed stays listed.
pub proof fn added_row_is_listed<T: Ranked>(
    places: Seq<usize>,
    rows: Seq<T>,
    row: T,
    wanted: Seq<bool>,
)
    requires
        wanted.len() == rows.len() + 1,
        ranks(places, rows.push(row), wanted),
    ensures
        wanted.last() ==> exists|i: int|
            0 <= i < places.len() && #[trigger] places[i] == rows.len(),
        !wanted.last() ==> forall|i: int|
            0 <= i < places.len() ==> #[trigger] places[i] != rows.len(),
        wanted.last() && (forall|k: int|
            0 <= k < rows.len() ==> row.precedes(&#[trigger] rows[k])) ==> places.len() > 0
            && places[0] == rows.len(),
        forall|k: int|
            0 <= k < rows.len() && #[trigger] wanted[k] ==> exists|i: int|
                0 <= i < places.len() && #[trigger] places[i] == k,
{
    let all = rows.push(row);
    let n = rows.len() as int;
    assert(wanted[n] == wanted.last());
    if wanted.last() {
        let i = choose|i: int| 0 <= i < places.len() && #[trigger] places[i] == n;
        if i > 0 && (forall|k: int| 0 <= k < rows.len() ==> row.precedes(&#[trigger] rows[k])) {
            lemma_listed_ahead(places, all, wanted, 0, i);
            let k = places[0] as int;
            assert(k < n);
            assert(all[k] == rows[k]);
            assert(row.precedes(&rows[k]));
            lemma_ahead(all, k, n);
        }
    }
    assert forall|k: int| 0 <= k < rows.len() && #[trigger] wanted[k] implies exists|i: int|
        0 <= i < places.len() && #[trigger] places[i] == k by {
        assert(0 <= k < all.len());
    }
}

/// A row that is added and not wanted leaves the listing as it was.
pub proof fn unwanted_row_changes_nothing<T: Ranked>(
    places: Seq<usize>,
    rows: Seq<T>,
    row: T,
    wanted: Seq<bool>,
)
    requires
        wanted.len() == rows.len(),
        ranks(places, rows, wanted),
    ensures
        ranks(places, rows.push(row), wanted.push(false)),
{
    let all = rows.push(row);
    let now = wanted.push(false);
    assert forall|i: int| 0 <= i < places.len() implies (#[trigger] places[i]) < all.len()
        && now[places[i] as int] by {
        assert(wanted[places[i] as int]);
    }
    assert forall|i: int, j: int| 0 <= i < j < places.len() implies {
        let (a, b) = (#[trigger] places[i], #[trigger] places[j]);
        a != b && !all[b as int].precedes(&all[a as int]) && (all[a as int].precedes(
            &all[b as int],
        ) || a < b)
    } by {
        let a = places[i];
        let b = places[j];
        assert(a < rows.len() && b < rows.len());
        assert(a != b);
    }
    assert forall|k: int| 0 <= k < all.len() && #[trigger] now[k] implies exists|i: int|
        0 <= i < places.len() && #[trigger] places[i] == k by {
        assert(k < rows.len());
        assert(wanted[k]);
    }
}

/// What is listed with a limit is the front of the whole list, and all of it where it is within
/// the limit.
pub proof fn limit_cuts_the_end(places: Seq<usize>, limit: usize)
    ensures
        limited(places, limit).len() <= limit,
        limited(places, limit).len() <= places.len(),
        limited(places, limit).len() == limit || limited(places, limit) == places,
        forall|i: int|
            0 <= i < limited(places, limit).len() ==> #[trigger] limited(places, limit)[i]
                == places[i],
{
    if places.len() <= limit {
        assert(limited(places, limit) =~= places);
    }
}

/// A list that was added to holds what it held and what was added, and nothing else.
pub proof fn lemma_pushed<T>(s: Seq<T>, x: T, y: T)
    ensures
        s.push(x).contains(y) <==> s.contains(y) || x == y,
{
    if s.contains(y) {
        let i = choose|i: int| 0 <= i < s.len() && s[i] == y;
        assert(s.push(x)[i] == y);
    }
    if x == y {
        assert(s.push(x)[s.len() as int] == y);
    }
    if s.push(x).contains(y) && x != y {
        let i = choose|i: int| 0 <= i < s.push(x).len() && s.push(x)[i] == y;
        assert(i < s.len());
        assert(s[i] == y);
    }
}

} // verus!
