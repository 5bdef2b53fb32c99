//! The name of a volume set: its format and its members, whatever order they were found in.

use vstd::prelude::*;
use vstd::string::*;
use crate::text::is_text_before;

verus! {

/// `a` does not come after `b`.
pub open spec fn in_order(a: Seq<char>, b: Seq<char>) -> bool {
    !crate::text::text_before(b, a)
}

/// No text comes after a later one.
pub open spec fn sorted(v: Seq<Seq<char>>) -> bool {
    forall|i: int, j: int| 0 <= i < j < v.len() ==> in_order(#[trigger] v[i], #[trigger] v[j])
}

/// The texts with a bar between neighbours.
pub open spec fn joined(v: Seq<Seq<char>>) -> Seq<char>
    decreases v.len(),
{
    if v.len() == 0 {
        Seq::empty()
    } else if v.len() == 1 {
        v[0]
    } else {
        joined(v.drop_last()) + seq!['|'] + v.last()
    }
}

/// `key` is the format's name, a colon, and the paths in rising order with bars between them.
pub open spec fn is_volume_set_key(
    key: Seq<char>,
    format: Seq<char>,
    paths: Seq<Seq<char>>,
) -> bool {
    exists|s: Seq<Seq<char>>| #[trigger]
        sorted(s) && s.to_multiset() == paths.to_multiset() && key == format + seq![':'] + joined(s)
}

proof fn lemma_order_total(a: Seq<char>, b: Seq<char>)
    ensures
        in_order(a, b) || in_order(b, a),
        in_order(a, b) && in_order(b, a) ==> a == b,
{
    crate::text::lemma_before_total(vstd::utf8::encode_utf8(a), vstd::utf8::encode_utf8(b));
    if in_order(a, b) && in_order(b, a) {
        crate::text::lemma_utf8_injective(a, b);
    }
}

proof fn lemma_order_transitive(a: Seq<char>, b: Seq<char>, c: Seq<char>)
    requires
        in_order(a, b),
        in_order(b, c),
    ensures
        in_order(a, c),
{
    let (x, y, z) = (
        vstd::utf8::encode_utf8(a),
        vstd::utf8::encode_utf8(b),
        vstd::utf8::encode_utf8(c),
    );
    crate::text::lemma_before_total(x, y);
    crate::text::lemma_before_total(y, z);
    if crate::text::bytes_before(z, x) {
        if x != y {
            crate::text::lemma_before_transitive(z, x, y);
        }
    }
}

/// Two sorted lists of the same texts are equal.
proof fn lemma_sorted_unique(x: Seq<Seq<char>>, y: Seq<Seq<char>>)
    requires
        sorted(x),
        sorted(y),
        x.to_multiset() == y.to_multiset(),
    ensures
        x == y,
    decreases x.len(),
{
    broadcast use vstd::seq_lib::group_to_multiset_ensures;

    assert(x.len() == x.to_multiset().len());
    assert(y.len() == y.to_multiset().len());
    if x.len() == 0 {
        assert(x =~= y);
    } else {
        assert(x.contains(x[0]));
        assert(y.contains(y[0]));
        assert(y.to_multiset().count(x[0]) > 0);
        assert(x.to_multiset().count(y[0]) > 0);
        assert(y.contains(x[0]));
        assert(x.contains(y[0]));
        let i = choose|i: int| 0 <= i < y.len() && y[i] == x[0];
        let j = choose|j: int| 0 <= j < x.len() && x[j] == y[0];
        lemma_order_total(x[0], y[0]);
        if i > 0 {
            assert(in_order(y[0], y[i]));
        }
        if j > 0 {
            assert(in_order(x[0], x[j]));
        }
        assert(x[0] == y[0]);
        assert(x.remove(0) =~= x.drop_first());
        assert(y.remove(0) =~= y.drop_first());
        assert(x.drop_first().to_multiset() == y.drop_first().to_multiset());
        lemma_sorted_unique(x.drop_first(), y.drop_first());
        assert(x =~= seq![x[0]] + x.drop_first());
        assert(y =~= seq![y[0]] + y.drop_first());
    }
}

/// The key does not depend on the order in which the members were found.
pub proof fn key_ignores_order(
    format: Seq<char>,
    paths: Seq<Seq<char>>,
    others: Seq<Seq<char>>,
    key: Seq<char>,
    other: Seq<char>,
)
    requires
        paths.to_multiset() == others.to_multiset(),
        is_volume_set_key(key, format, paths),
        is_volume_set_key(other, format, others),
    ensures
        key == other,
{
    let s = choose|s: Seq<Seq<char>>| #[trigger]
        sorted(s) && s.to_multiset() == paths.to_multiset() && key == format + seq![':'] + joined(s);
    let t = choose|s: Seq<Seq<char>>| #[trigger]
        sorted(s) && s.to_multiset() == others.to_multiset() && other == format + seq![':'] + joined(
            s,
        );
    lemma_sorted_unique(s, t);
}

fn insert_sorted(v: &mut Vec<String>, text: String)
    requires
        sorted(crate::text::texts(old(v)@)),
    ensures
        sorted(crate::text::texts(final(v)@)),
        crate::text::texts(final(v)@).to_multiset() == crate::text::texts(
            old(v)@,
        ).to_multiset().insert(text@),
{
    let ghost before = v@;
    let mut at: usize = 0;
    while at < v.len() && !is_text_before(text.as_str(), v[at].as_str())
        invariant
            at <= v@.len(),
            forall|k: int| 0 <= k < at ==> in_order(#[trigger] v@[k]@, text@),
        decreases v.len() - at,
    {
        at += 1;
    }
    let ghost t = text@;
    v.insert(at, text);
    proof {
        let old_texts = crate::text::texts(before);
        let new_texts = crate::text::texts(v@);
        assert(new_texts =~= old_texts.insert(at as int, t));
        vstd::seq_lib::to_multiset_insert(old_texts, at as int, t);
        assert forall|a: int, b: int| 0 <= a < b < new_texts.len() implies in_order(
            #[trigger] new_texts[a],
            #[trigger] new_texts[b],
        ) by {
            if b == at {
                assert(new_texts[a] == before[a]@);
            } else if a == at {
                assert(new_texts[b] == old_texts[b - 1]);
                lemma_order_total(t, before[at as int]@);
                assert(in_order(t, old_texts[at as int]));
                if b - 1 > at {
                    assert(in_order(old_texts[at as int], old_texts[b - 1]));
                    lemma_order_transitive(t, old_texts[at as int], old_texts[b - 1]);
                }
            } else {
                let a0 = if a < at {
                    a
                } else {
                    a - 1
                };
                let b0 = if b < at {
                    b
                } else {
                    b - 1
                };
                assert(new_texts[a] == old_texts[a0]);
                assert(new_texts[b] == old_texts[b0]);
            }
        }
    }
}

/// The name under which a volume set is taken up.
pub fn volume_set_key(format: &str, paths: &Vec<String>) -> (r: String)
    ensures
        is_volume_set_key(r@, format@, crate::text::texts(paths@)),
{
    let mut ordered: Vec<String> = Vec::new();
    let mut i: usize = 0;
    assert(crate::text::texts(ordered@) =~= crate::text::texts(paths@.take(0)));
    while i < paths.len()
        invariant
            i <= paths@.len(),
            sorted(crate::text::texts(ordered@)),
            crate::text::texts(ordered@).to_multiset() == crate::text::texts(
                paths@.take(i as int),
            ).to_multiset(),
        decreases paths.len() - i,
    {
        insert_sorted(&mut ordered, paths[i].clone());
        i += 1;
        proof {
            let done = crate::text::texts(paths@.take(i - 1));
            assert(crate::text::texts(paths@.take(i as int)) =~= done.push(paths@[i - 1]@));
            vstd::seq_lib::to_multiset_build(done, paths@[i - 1]@);
        }
    }
    assert(paths@.take(i as int) =~= paths@);
    let ghost s = crate::text::texts(ordered@);
    let mut key: String = format.to_owned();
    key.push(':');
    let ghost head = key@;
    let mut k: usize = 0;
    assert(s.take(0) =~= Seq::empty());
    assert(head =~= head + joined(s.take(0)));
    while k < ordered.len()
        invariant
            k <= ordered@.len(),
            s == crate::text::texts(ordered@),
            key@ == head + joined(s.take(k as int)),
        decreases ordered.len() - k,
    {
        if k > 0 {
            key.push('|');
        }
        key.append(ordered[k].as_str());
        k += 1;
        proof {
            assert(s.take(k as int).drop_last() =~= s.take(k - 1));
            assert(s.take(k as int).last() == ordered@[k - 1]@);
            assert(key@ =~= head + joined(s.take(k as int)));
        }
    }
    proof {
        assert(s.take(k as int) =~= s);
        assert(head =~= format@ + seq![':']);
        assert(sorted(s));
    }
    key
}

} // verus!
