//! What one task has already taken up: no archive is extracted twice in a run.

use vstd::prelude::*;
use crate::path::{same_path, PathParts};
use crate::text::same_text;
use crate::types::{CandidateSource, ExtractionCandidate};
use crate::workflow::reason::Reason;

verus! {

/// A set of texts, each held once in the order of its first insertion.
pub struct TextSet {
    items: Vec<String>,
}

impl View for TextSet {
    type V = Set<Seq<char>>;

    closed spec fn view(&self) -> Set<Seq<char>> {
        Set::new(|t: Seq<char>| exists|i: int| 0 <= i < self.items@.len() && #[trigger] self.items@[i]@ == t)
    }
}

impl TextSet {
    /// No text is held twice.
    pub closed spec fn wf(&self) -> bool {
        forall|i: int, j: int|
            0 <= i < j < self.items@.len() ==> #[trigger] self.items@[i]@
                != #[trigger] self.items@[j]@
    }

    pub fn new() -> (r: TextSet)
        ensures
            r.wf(),
            r@ == Set::<Seq<char>>::empty(),
    {
        let r = TextSet { items: Vec::new() };
        assert(r@ =~= Set::<Seq<char>>::empty());
        r
    }

    pub fn contains(&self, text: &str) -> (r: bool)
        ensures
            r == self@.contains(text@),
    {
        let mut i: usize = 0;
        while i < self.items.len()
            invariant
                i <= self.items@.len(),
                forall|k: int| 0 <= k < i ==> #[trigger] self.items@[k]@ != text@,
            decreases self.items.len() - i,
        {
            if same_text(self.items[i].as_str(), text) {
                assert(self.items@[i as int]@ == text@);
                return true;
            }
            i += 1;
        }
        false
    }

    /// Puts a text in, and says whether it was new.
    pub fn insert(&mut self, text: String) -> (r: bool)
        requires
            old(self).wf(),
        ensures
            final(self).wf(),
            final(self)@ == old(self)@.insert(text@),
            r == !old(self)@.contains(text@),
    {
        if self.contains(text.as_str()) {
            assert(self@ =~= old(self)@.insert(text@));
            return false;
        }
        let ghost before = self.items@;
        let ghost t = text@;
        self.items.push(text);
        proof {
            assert forall|x: Seq<char>| #[trigger] self@.contains(x) == old(self)@.insert(t).contains(
                x,
            ) by {
                if old(self)@.contains(x) {
                    let i = choose|i: int| 0 <= i < before.len() && #[trigger] before[i]@ == x;
                    assert(self.items@[i]@ == x);
                }
                if x == t {
                    assert(self.items@[before.len() as int]@ == x);
                }
            }
            assert(self@ =~= old(self)@.insert(t));
            assert forall|i: int, j: int| 0 <= i < j < self.items@.len() implies #[trigger] self.items@[i]@
                != #[trigger] self.items@[j]@ by {
                if j == before.len() {
                    assert(before[i]@ == self.items@[i]@);
                    assert(old(self)@.contains(before[i]@));
                }
            }
        }
        true
    }
}

/// A set of paths, each held once, as it was written first.
pub struct PathSet {
    items: Vec<String>,
}

/// All ways to write a path.
pub open spec fn spellings(path: Seq<char>) -> Set<Seq<char>> {
    Set::new(|t: Seq<char>| crate::path::same(t, path))
}

impl View for PathSet {
    type V = Set<Seq<char>>;

    /// The texts that name a path of the set.
    closed spec fn view(&self) -> Set<Seq<char>> {
        Set::new(|t: Seq<char>| has_path(self.items@, t))
    }
}

impl PathSet {
    /// No path is held twice.
    pub closed spec fn wf(&self) -> bool {
        forall|i: int, j: int|
            0 <= i < j < self.items@.len() ==> !crate::path::same(
                #[trigger] self.items@[i]@,
                #[trigger] self.items@[j]@,
            )
    }

    pub fn new() -> (r: PathSet)
        ensures
            r.wf(),
            r@ == Set::<Seq<char>>::empty(),
    {
        let r = PathSet { items: Vec::new() };
        assert(r@ =~= Set::<Seq<char>>::empty());
        r
    }

    pub fn contains(&self, path: &str) -> (r: bool)
        ensures
            r == self@.contains(path@),
    {
        let mut i: usize = 0;
        while i < self.items.len()
            invariant
                i <= self.items@.len(),
                forall|k: int|
                    0 <= k < i ==> !crate::path::same(#[trigger] self.items@[k]@, path@),
            decreases self.items.len() - i,
        {
            if same_path(self.items[i].as_str(), path) {
                assert(crate::path::same(self.items@[i as int]@, path@));
                return true;
            }
            i += 1;
        }
        false
    }

    /// Puts a path in, and says whether it was new.
    pub fn insert(&mut self, path: String) -> (r: bool)
        requires
            old(self).wf(),
        ensures
            final(self).wf(),
            final(self)@ == old(self)@.union(spellings(path@)),
            r == !old(self)@.contains(path@),
    {
        let ghost before = self.items@;
        let ghost p = path@;
        if self.contains(path.as_str()) {
            proof {
                let i = choose|i: int|
                    0 <= i < before.len() && crate::path::same(#[trigger] before[i]@, p);
                assert forall|t: Seq<char>| crate::path::same(t, p) implies has_path(before, t) by {
                    assert(crate::path::same(before[i]@, t));
                }
                assert(self@ =~= old(self)@.union(spellings(p)));
            }
            return false;
        }
        self.items.push(path);
        proof {
            assert forall|t: Seq<char>| #[trigger] self@.contains(t) == old(self)@.union(
                spellings(p),
            ).contains(t) by {
                if has_path(before, t) {
                    let i = choose|i: int|
                        0 <= i < before.len() && crate::path::same(#[trigger] before[i]@, t);
                    assert(crate::path::same(self.items@[i]@, t));
                }
                if crate::path::same(t, p) {
                    assert(crate::path::same(self.items@[before.len() as int]@, t));
                }
                if has_path(self.items@, t) {
                    let i = choose|i: int|
                        0 <= i < self.items@.len() && crate::path::same(
                            #[trigger] self.items@[i]@,
                            t,
                        );
                    if i < before.len() {
                        assert(crate::path::same(before[i]@, t));
                    }
                }
            }
            assert(self@ =~= old(self)@.union(spellings(p)));
            assert forall|i: int, j: int| 0 <= i < j < self.items@.len() implies !crate::path::same(
                #[trigger] self.items@[i]@,
                #[trigger] self.items@[j]@,
            ) by {
                assert(self.items@[i] == before[i]);
                if j < before.len() {
                    assert(self.items@[j] == before[j]);
                }
            }
        }
        true
    }
}

/// Whether a candidate goes on or is skipped at once.
#[derive(Clone, Copy, Debug, PartialEq, Eq, Structural)]
pub enum Screening {
    Accept,
    Skip(Reason),
}

/// What the roots of one task share about archives that were taken up.
pub struct TaskDedup {
    pub seen: TextSet,
    pub volumes: TextSet,
    pub members: PathSet,
}

impl TaskDedup {
    pub open spec fn wf(&self) -> bool {
        self.seen.wf() && self.volumes.wf() && self.members.wf()
    }

    pub fn new() -> (r: TaskDedup)
        ensures
            r.wf(),
            r.seen@ == Set::<Seq<char>>::empty(),
            r.volumes@ == Set::<Seq<char>>::empty(),
            r.members@ == Set::<Seq<char>>::empty(),
    {
        TaskDedup { seen: TextSet::new(), volumes: TextSet::new(), members: PathSet::new() }
    }

    /// The file is a volume of a set that was taken up. Findings inside a file are no volumes.
    pub open spec fn is_taken_member(
        &self,
        source: CandidateSource,
        absolute_path: Seq<char>,
    ) -> bool {
        source != CandidateSource::EmbeddedFinding && self.members@.contains(absolute_path)
    }

    /// Whether the file is a volume of a set that was taken up.
    pub fn member_taken(&self, source: CandidateSource, absolute_path: &str) -> (r: bool)
        ensures
            r == self.is_taken_member(source, absolute_path@),
    {
        source != CandidateSource::EmbeddedFinding && self.members.contains(absolute_path)
    }

    /// A candidate is taken up once per run, not below the recursion limit, and not as a volume
    /// of a set that was taken up. Its key is kept in each case.
    pub fn screen(
        &mut self,
        candidate: &ExtractionCandidate,
        key: String,
        absolute_path: &str,
        recursion_limit: usize,
    ) -> (r: Screening)
        requires
            old(self).wf(),
        ensures
            final(self).wf(),
            final(self).seen@ == old(self).seen@.insert(key@),
            final(self).volumes == old(self).volumes,
            final(self).members == old(self).members,
            r == (if old(self).seen@.contains(key@) {
                Screening::Skip(Reason::Duplicate)
            } else if candidate.depth > recursion_limit {
                Screening::Skip(Reason::RecursionLimit)
            } else if old(self).is_taken_member(candidate.source, absolute_path@) {
                Screening::Skip(Reason::Duplicate)
            } else {
                Screening::Accept
            }),
            r is Accept <==> !old(self).seen@.contains(key@) && candidate.depth <= recursion_limit
                && !old(self).is_taken_member(candidate.source, absolute_path@),
            r == Screening::Skip(Reason::RecursionLimit) <==> candidate.depth > recursion_limit
                && !old(self).seen@.contains(key@),
            final(self).seen@.contains(key@),
    {
        let is_new: bool = self.seen.insert(key);
        if !is_new {
            return Screening::Skip(Reason::Duplicate);
        }
        if candidate.depth > recursion_limit {
            return Screening::Skip(Reason::RecursionLimit);
        }
        if self.member_taken(candidate.source, absolute_path) {
            return Screening::Skip(Reason::Duplicate);
        }
        Screening::Accept
    }

    /// The members of `set`, one by one and however they are written, are in `members`.
    pub open spec fn with_members(members: Set<Seq<char>>, set: Seq<String>) -> Set<Seq<char>>
        decreases set.len(),
    {
        if set.len() == 0 {
            members
        } else {
            TaskDedup::with_members(members, set.drop_last()).union(spellings(set.last()@))
        }
    }

    fn take_members(&mut self, paths: &Vec<String>)
        requires
            old(self).wf(),
        ensures
            final(self).wf(),
            final(self).seen == old(self).seen,
            final(self).volumes == old(self).volumes,
            final(self).members@ == TaskDedup::with_members(old(self).members@, paths@),
    {
        let ghost before = self.members@;
        let mut i: usize = 0;
        assert(paths@.take(0).len() == 0);
        while i < paths.len()
            invariant
                i <= paths@.len(),
                self.wf(),
                self.seen == old(self).seen,
                self.volumes == old(self).volumes,
                self.members@ == TaskDedup::with_members(before, paths@.take(i as int)),
            decreases paths.len() - i,
        {
            let _ = self.members.insert(paths[i].clone());
            i += 1;
            assert(paths@.take(i as int).drop_last() =~= paths@.take(i - 1));
        }
        assert(paths@.take(paths@.len() as int) =~= paths@);
    }

    /// Takes up a resolved volume set before its extraction: the set and its members are then
    /// known. A set that was known before is a duplicate, and nothing changes.
    pub fn claim_volume_set(&mut self, key: String, paths: &Vec<String>) -> (r: Screening)
        requires
            old(self).wf(),
        ensures
            final(self).wf(),
            final(self).seen == old(self).seen,
            final(self).volumes@ == old(self).volumes@.insert(key@),
            if old(self).volumes@.contains(key@) {
                &&& r == Screening::Skip(Reason::Duplicate)
                &&& final(self).members@ == old(self).members@
            } else {
                &&& r == Screening::Accept
                &&& final(self).members@ == TaskDedup::with_members(old(self).members@, paths@)
            },
    {
        let is_new: bool = self.volumes.insert(key);
        if !is_new {
            return Screening::Skip(Reason::Duplicate);
        }
        self.take_members(paths);
        Screening::Accept
    }

    /// Takes up the grouping that was extracted after a trial of several.
    pub fn consume_winner(&mut self, key: String, paths: &Vec<String>)
        requires
            old(self).wf(),
        ensures
            final(self).wf(),
            final(self).seen == old(self).seen,
            final(self).volumes@ == old(self).volumes@.insert(key@),
            final(self).members@ == TaskDedup::with_members(old(self).members@, paths@),
    {
        let _ = self.volumes.insert(key);
        self.take_members(paths);
    }
}

/// Every member of a set that was taken up is known afterwards, however it is written, and nothing
/// is forgotten.
pub proof fn members_are_known(members: Set<Seq<char>>, set: Seq<String>, i: int, path: Seq<char>)
    requires
        0 <= i < set.len(),
        crate::path::same(path, set[i]@),
    ensures
        TaskDedup::with_members(members, set).contains(path),
        members.subset_of(TaskDedup::with_members(members, set)),
    decreases set.len(),
{
    if i < set.len() - 1 {
        members_are_known(members, set.drop_last(), i, path);
        assert(set.drop_last()[i] == set[i]);
    } else {
        lemma_members_grow(members, set.drop_last());
    }
}

proof fn lemma_members_grow(members: Set<Seq<char>>, set: Seq<String>)
    ensures
        members.subset_of(TaskDedup::with_members(members, set)),
    decreases set.len(),
{
    if set.len() > 0 {
        lemma_members_grow(members, set.drop_last());
    }
}

/// The paths are in strictly rising order.
pub open spec fn strictly_sorted(v: Seq<String>) -> bool {
    forall|i: int, j: int|
        0 <= i < j < v.len() ==> crate::path::path_before(#[trigger] v[i]@, #[trigger] v[j]@)
}

/// The path is one of the list, however it is written.
pub open spec fn has_path(v: Seq<String>, path: Seq<char>) -> bool {
    exists|i: int| 0 <= i < v.len() && crate::path::same(#[trigger] v[i]@, path)
}

/// The text at `k` is this one, and no earlier one names the same path.
pub open spec fn is_first_at(v: Seq<String>, k: int, text: Seq<char>) -> bool {
    0 <= k < v.len() && v[k]@ == text && !has_path(v.take(k), text)
}

/// The text is in the list, and no earlier one there names the same path.
pub open spec fn is_first_name(v: Seq<String>, text: Seq<char>) -> bool {
    exists|k: int| #[trigger] is_first_at(v, k, text)
}

/// The text is among the first `n` of the list.
pub open spec fn among(v: Seq<String>, n: int, t: Seq<char>) -> bool {
    exists|i: int| 0 <= i < n && #[trigger] v[i]@ == t
}

/// The paths in one order for all, each once, as it was written first: locks taken in this order
/// cannot wait for each other in a circle.
pub fn lock_order(paths: &Vec<String>) -> (r: Vec<String>)
    ensures
        strictly_sorted(r@),
        forall|k: int| 0 <= k < paths@.len() ==> has_path(r@, (#[trigger] paths@[k])@),
        forall|i: int| 0 <= i < r@.len() ==> is_first_name(paths@, (#[trigger] r@[i])@),
{
    let mut sorted: Vec<String> = Vec::new();
    let mut i: usize = 0;
    while i < paths.len()
        invariant
            i <= paths@.len(),
            strictly_sorted(sorted@),
            forall|k: int| 0 <= k < i ==> has_path(sorted@, (#[trigger] paths@[k])@),
            forall|a: int|
                0 <= a < sorted@.len() ==> is_first_name(
                    paths@.take(i as int),
                    (#[trigger] sorted@[a])@,
                ),
        decreases paths.len() - i,
    {
        let parts = PathParts::parse(paths[i].as_str());
        let ghost p = paths@[i as int]@;
        let mut at: usize = 0;
        let mut known: bool = false;
        while at < sorted.len()
            invariant_except_break
                !known,
            invariant
                i < paths@.len(),
                p == paths@[i as int]@,
                parts.of(p),
                at <= sorted@.len(),
                strictly_sorted(sorted@),
                forall|k: int|
                    0 <= k < at ==> crate::path::path_before(#[trigger] sorted@[k]@, p),
            ensures
                known ==> at < sorted@.len() && crate::path::same(sorted@[at as int]@, p),
                !known && at < sorted@.len() ==> crate::path::path_before(
                    p,
                    sorted@[at as int]@,
                ),
            decreases sorted.len() - at,
        {
            let there = PathParts::parse(sorted[at].as_str());
            assert(there.of(sorted@[at as int]@));
            if parts.is_before(&there) {
                break;
            }
            proof {
                crate::path::paths_are_in_line(sorted@[at as int]@, p, p);
            }
            if there.same_as(&parts) {
                known = true;
                break;
            }
            at += 1;
        }
        let ghost before = sorted@;
        if known {
            proof {
                lemma_known_path(before, paths@, i as int, at as int);
            }
        } else {
            let copy: String = paths[i].clone();
            sorted.insert(at, copy);
            proof {
                lemma_no_such_path(before, p, at as int);
                lemma_inserted_is_sorted(before, sorted@, at as int);
                let new = sorted@[at as int];
                assert(sorted@ =~= before.insert(at as int, new));
                lemma_new_is_first(before, paths@, i as int);
                lemma_all_are_there(before, new, paths@, i as int, at as int);
                lemma_all_are_first(before, new, paths@, i as int, at as int);
            }
        }
        i += 1;
    }
    assert(paths@.take(i as int) =~= paths@);
    sorted
}

proof fn lemma_inserted_is_sorted(before: Seq<String>, after: Seq<String>, at: int)
    requires
        strictly_sorted(before),
        0 <= at <= before.len(),
        after == before.insert(at, after[at]),
        forall|k: int|
            0 <= k < at ==> crate::path::path_before(#[trigger] before[k]@, after[at]@),
        at < before.len() ==> crate::path::path_before(after[at]@, before[at]@),
    ensures
        strictly_sorted(after),
{
    assert forall|a: int, b: int| 0 <= a < b < after.len() implies crate::path::path_before(
        #[trigger] after[a]@,
        #[trigger] after[b]@,
    ) by {
        if b == at {
            assert(after[a] == before[a]);
        } else if a == at {
            assert(after[b] == before[b - 1]);
            if b - 1 > at {
                crate::path::paths_are_in_line(after[at]@, before[at]@, before[b - 1]@);
            }
        } else {
            let a0 = if a < at {
                a
            } else {
                a - 1
            };
            let b0 = if b < at {
                b
            } else {
                b - 1
            };
            assert(after[a] == before[a0]);
            assert(after[b] == before[b0]);
        }
    }
}

proof fn lemma_no_such_path(before: Seq<String>, p: Seq<char>, at: int)
    requires
        strictly_sorted(before),
        0 <= at <= before.len(),
        forall|k: int| 0 <= k < at ==> crate::path::path_before(#[trigger] before[k]@, p),
        at < before.len() ==> crate::path::path_before(p, before[at]@),
    ensures
        !has_path(before, p),
{
    assert forall|b: int| 0 <= b < before.len() implies !crate::path::same(
        #[trigger] before[b]@,
        p,
    ) by {
        crate::path::paths_are_in_line(before[b]@, p, p);
        if b > at {
            crate::path::paths_are_in_line(p, before[at]@, before[b]@);
        }
        crate::path::paths_are_in_line(p, before[b]@, p);
    }
}

/// A first name stays one when the list grows behind it.
proof fn lemma_first_stays_first(paths: Seq<String>, i: int, text: Seq<char>)
    requires
        0 <= i < paths.len(),
        is_first_name(paths.take(i), text),
    ensures
        is_first_name(paths.take(i + 1), text),
{
    let k = choose|k: int| #[trigger] is_first_at(paths.take(i), k, text);
    assert(paths.take(i + 1).take(k) =~= paths.take(i).take(k));
    assert(paths.take(i + 1)[k] == paths.take(i)[k]);
    assert(is_first_at(paths.take(i + 1), k, text));
}

proof fn lemma_known_path(sorted: Seq<String>, paths: Seq<String>, i: int, at: int)
    requires
        0 <= i < paths.len(),
        0 <= at < sorted.len(),
        crate::path::same(sorted[at]@, paths[i]@),
        forall|a: int|
            0 <= a < sorted.len() ==> is_first_name(paths.take(i), (#[trigger] sorted[a])@),
    ensures
        has_path(sorted, paths[i]@),
        forall|a: int|
            0 <= a < sorted.len() ==> is_first_name(paths.take(i + 1), (#[trigger] sorted[a])@),
{
    assert forall|a: int| 0 <= a < sorted.len() implies is_first_name(
        paths.take(i + 1),
        (#[trigger] sorted[a])@,
    ) by {
        lemma_first_stays_first(paths, i, sorted[a]@);
    }
}

proof fn lemma_still_has(before: Seq<String>, new: String, at: int, path: Seq<char>)
    requires
        0 <= at <= before.len(),
        has_path(before, path),
    ensures
        has_path(before.insert(at, new), path),
{
    let b = choose|b: int| 0 <= b < before.len() && crate::path::same(#[trigger] before[b]@, path);
    let a = if b < at {
        b
    } else {
        b + 1
    };
    assert(before.insert(at, new)[a] == before[b]);
}

proof fn lemma_new_is_first(before: Seq<String>, paths: Seq<String>, i: int)
    requires
        0 <= i < paths.len(),
        !has_path(before, paths[i]@),
        forall|k: int| 0 <= k < i ==> has_path(before, (#[trigger] paths[k])@),
    ensures
        is_first_name(paths.take(i + 1), paths[i]@),
{
    let all = paths.take(i + 1);
    let text = paths[i]@;
    if has_path(all.take(i), text) {
        let k = choose|k: int|
            0 <= k < all.take(i).len() && crate::path::same(#[trigger] all.take(i)[k]@, text);
        assert(all.take(i)[k] == paths[k]);
        assert(has_path(before, paths[k]@));
        let b = choose|b: int|
            0 <= b < before.len() && crate::path::same(#[trigger] before[b]@, paths[k]@);
        assert(crate::path::same(before[b]@, text));
    }
    assert(is_first_at(all, i, text));
}

proof fn lemma_all_are_there(before: Seq<String>, new: String, paths: Seq<String>, i: int, at: int)
    requires
        0 <= i < paths.len(),
        0 <= at <= before.len(),
        new@ == paths[i]@,
        forall|k: int| 0 <= k < i ==> has_path(before, (#[trigger] paths[k])@),
    ensures
        forall|k: int|
            0 <= k < i + 1 ==> has_path(before.insert(at, new), (#[trigger] paths[k])@),
{
    let after = before.insert(at, new);
    assert forall|k: int| 0 <= k < i + 1 implies has_path(after, (#[trigger] paths[k])@) by {
        if k == i {
            assert(crate::path::same(after[at]@, paths[i]@));
        } else {
            lemma_still_has(before, new, at, paths[k]@);
        }
    }
}

proof fn lemma_all_are_first(before: Seq<String>, new: String, paths: Seq<String>, i: int, at: int)
    requires
        0 <= i < paths.len(),
        0 <= at <= before.len(),
        is_first_name(paths.take(i + 1), new@),
        forall|a: int|
            0 <= a < before.len() ==> is_first_name(paths.take(i), (#[trigger] before[a])@),
    ensures
        forall|a: int|
            0 <= a <= before.len() ==> is_first_name(
                paths.take(i + 1),
                (#[trigger] before.insert(at, new)[a])@,
            ),
{
    let after = before.insert(at, new);
    assert forall|a: int| 0 <= a <= before.len() implies is_first_name(
        paths.take(i + 1),
        (#[trigger] after[a])@,
    ) by {
        if a != at {
            let b = if a < at {
                a
            } else {
                a - 1
            };
            assert(after[a] == before[b]);
            lemma_first_stays_first(paths, i, before[b]@);
        }
    }
}

/// Two nodes that want the same two locks take them in the same order, so that neither waits for
/// the other while it holds what the other waits for.
pub proof fn locks_come_in_one_order(
    mine: Seq<String>,
    theirs: Seq<String>,
    i: int,
    j: int,
    k: int,
    l: int,
)
    requires
        strictly_sorted(mine),
        strictly_sorted(theirs),
        0 <= i < j < mine.len(),
        0 <= k < theirs.len(),
        0 <= l < theirs.len(),
        crate::path::same(mine[i]@, theirs[k]@),
        crate::path::same(mine[j]@, theirs[l]@),
    ensures
        k < l,
{
    assert(crate::path::path_before(mine[i]@, mine[j]@));
    crate::path::paths_are_in_line(mine[i]@, mine[j]@, mine[i]@);
    if l < k {
        assert(crate::path::path_before(theirs[l]@, theirs[k]@));
    }
}

/// The positions of the first grouping with each key, in order: a grouping that names the same
/// volumes as an earlier one is not tried again.
pub fn distinct_groups(keys: &Vec<String>) -> (r: Vec<usize>)
    ensures
        forall|k: int| 0 <= k < r@.len() ==> #[trigger] r@[k] < keys@.len(),
        forall|a: int, b: int| 0 <= a < b < r@.len() ==> #[trigger] r@[a] < #[trigger] r@[b],
        forall|i: int|
            0 <= i < keys@.len() ==> r@.contains(i as usize) == !among(
                keys@,
                i,
                (#[trigger] keys@[i])@,
            ),
{
    let mut picked: Vec<usize> = Vec::new();
    let mut seen = TextSet::new();
    let mut i: usize = 0;
    while i < keys.len()
        invariant
            i <= keys@.len(),
            seen.wf(),
            forall|t: Seq<char>| #[trigger] seen@.contains(t) == among(keys@, i as int, t),
            forall|k: int| 0 <= k < picked@.len() ==> #[trigger] picked@[k] < i,
            forall|a: int, b: int|
                0 <= a < b < picked@.len() ==> #[trigger] picked@[a] < #[trigger] picked@[b],
            forall|j: int|
                0 <= j < i ==> picked@.contains(j as usize) == !among(
                    keys@,
                    j,
                    (#[trigger] keys@[j])@,
                ),
        decreases keys.len() - i,
    {
        let ghost seen_before = seen@;
        let is_new: bool = seen.insert(keys[i].clone());
        let ghost before = picked@;
        if is_new {
            picked.push(i);
        }
        i += 1;
        proof {
            assert forall|t: Seq<char>| #[trigger] seen@.contains(t) == among(keys@, i as int, t) by {
                if among(keys@, i - 1, t) {
                    let m = choose|m: int| 0 <= m < i - 1 && #[trigger] keys@[m]@ == t;
                    assert(0 <= m < i && keys@[m]@ == t);
                }
                if t == keys@[i - 1]@ {
                    assert(among(keys@, i as int, t));
                }
                if among(keys@, i as int, t) {
                    let m = choose|m: int| 0 <= m < i && #[trigger] keys@[m]@ == t;
                    if m < i - 1 {
                        assert(among(keys@, i - 1, t));
                    }
                }
                assert(seen_before.contains(t) == among(keys@, i - 1, t));
            }
            assert forall|j: int| 0 <= j < i implies picked@.contains(j as usize) == !among(
                keys@,
                j,
                (#[trigger] keys@[j])@,
            ) by {
                if j < i - 1 {
                    assert(before.contains(j as usize) == !among(keys@, j, keys@[j]@));
                    if is_new {
                        if before.contains(j as usize) {
                            let k = choose|k: int| 0 <= k < before.len() && before[k] == j as usize;
                            assert(picked@[k] == j as usize);
                        }
                        if picked@.contains(j as usize) {
                            let k = choose|k: int| 0 <= k < picked@.len() && picked@[k] == j as usize;
                            assert(before[k] == j as usize);
                        }
                    }
                } else {
                    assert(seen_before.contains(keys@[j]@) == among(keys@, j, keys@[j]@));
                    if is_new {
                        assert(picked@[picked@.len() - 1] == j as usize);
                    } else if picked@.contains(j as usize) {
                        let k = choose|k: int| 0 <= k < picked@.len() && picked@[k] == j as usize;
                        assert(false);
                    }
                }
            }
        }
    }
    picked
}

/// A finding inside a file is no volume, whatever is taken up. Any other file is one exactly where
/// its path is taken up.
pub proof fn findings_are_no_volumes(dedup: TaskDedup, source: CandidateSource, path: Seq<char>)
    ensures
        !dedup.is_taken_member(CandidateSource::EmbeddedFinding, path),
        source != CandidateSource::EmbeddedFinding ==> (dedup.is_taken_member(source, path)
            <==> dedup.members@.contains(path)),
{
}

} // verus!
