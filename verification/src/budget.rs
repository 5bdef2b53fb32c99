//! Limits on what one task may write.

use vstd::prelude::*;
use vstd::string::*;
use crate::execution::TaskBudgetSnapshot;
use crate::layout::{LayoutPlan, LayoutPlanKind, PlanSource};
use crate::path::strip_prefix;
use crate::text::push_decimal;

verus! {

/// The limits of a task. A limit of zero does not apply, but for that on nested candidates.
#[derive(Clone, Copy, Debug, PartialEq, Eq, Structural)]
pub struct ExtractionLimits {
    pub max_files: u64,
    pub max_output_bytes: u64,
    pub min_free_bytes: u64,
    pub max_nested_candidates: usize,
}

/// How many entries and bytes were written.
#[derive(Clone, Copy, Debug, PartialEq, Eq, Structural)]
pub struct Usage {
    pub files: u64,
    pub bytes: u64,
}

impl Default for Usage {
    fn default() -> (r: Usage)
        ensures
            r == (Usage { files: 0, bytes: 0 }),
    {
        Usage { files: 0, bytes: 0 }
    }
}

/// A limit that was passed.
#[derive(Clone, Copy, Debug, PartialEq, Eq, Structural)]
pub enum LimitExceeded {
    Entries(u64),
    Bytes(u64),
    FreeSpace(u64),
    NestedCandidates,
}

impl LimitExceeded {
    /// The sentence for the limit.
    pub open spec fn text(self) -> Seq<char> {
        match self {
            LimitExceeded::Entries(n) => "output entry limit "@ + crate::text::decimal(n as nat)
                + " exceeded"@,
            LimitExceeded::Bytes(n) => "output byte limit "@ + crate::text::decimal(n as nat)
                + " exceeded"@,
            LimitExceeded::FreeSpace(n) => "free disk space fell below "@ + crate::text::decimal(
                n as nat,
            ) + " bytes"@,
            LimitExceeded::NestedCandidates => "nested candidate limit exceeded"@,
        }
    }

    pub fn describe(self) -> (r: String)
        ensures
            r@ == self.text(),
    {
        match self {
            LimitExceeded::Entries(n) => {
                let mut out: String = "output entry limit ".to_owned();
                push_decimal(&mut out, n);
                out.append(" exceeded");
                out
            },
            LimitExceeded::Bytes(n) => {
                let mut out: String = "output byte limit ".to_owned();
                push_decimal(&mut out, n);
                out.append(" exceeded");
                out
            },
            LimitExceeded::FreeSpace(n) => {
                let mut out: String = "free disk space fell below ".to_owned();
                push_decimal(&mut out, n);
                out.append(" bytes");
                out
            },
            LimitExceeded::NestedCandidates => "nested candidate limit exceeded".to_owned(),
        }
    }
}

/// At most the largest number.
pub open spec fn cap(n: int) -> int {
    if n > u64::MAX {
        u64::MAX as int
    } else {
        n
    }
}

/// The first limit that so many entries and bytes pass, if any.
pub open spec fn passed(files: int, bytes: int, limits: ExtractionLimits) -> Option<LimitExceeded> {
    if limits.max_files != 0 && files > limits.max_files {
        Some(LimitExceeded::Entries(limits.max_files))
    } else if limits.max_output_bytes != 0 && bytes > limits.max_output_bytes {
        Some(LimitExceeded::Bytes(limits.max_output_bytes))
    } else {
        None
    }
}

fn check_usage(usage: Usage, limits: &ExtractionLimits) -> (r: Result<(), LimitExceeded>)
    ensures
        match r {
            Ok(_) => passed(usage.files as int, usage.bytes as int, *limits) is None,
            Err(e) => passed(usage.files as int, usage.bytes as int, *limits) == Some(e),
        },
{
    if limits.max_files != 0 && usage.files > limits.max_files {
        return Err(LimitExceeded::Entries(limits.max_files));
    }
    if limits.max_output_bytes != 0 && usage.bytes > limits.max_output_bytes {
        return Err(LimitExceeded::Bytes(limits.max_output_bytes));
    }
    Ok(())
}

/// What one attempt has written so far.
#[derive(Debug)]
pub struct InFlight {
    pub id: u64,
    pub usage: Usage,
}

/// What a task has committed, and what its attempts are writing.
#[derive(Debug)]
pub struct TaskBudget {
    committed: Usage,
    in_flight: Vec<InFlight>,
    next_attempt: u64,
    nested_candidates: usize,
}

/// The entries of all attempts.
pub open spec fn all_files(v: Seq<InFlight>) -> int
    decreases v.len(),
{
    if v.len() == 0 {
        0
    } else {
        all_files(v.drop_last()) + v.last().usage.files
    }
}

/// The bytes of all attempts.
pub open spec fn all_bytes(v: Seq<InFlight>) -> int
    decreases v.len(),
{
    if v.len() == 0 {
        0
    } else {
        all_bytes(v.drop_last()) + v.last().usage.bytes
    }
}

proof fn lemma_sums(v: Seq<InFlight>, k: int)
    requires
        0 <= k < v.len(),
    ensures
        all_files(v.remove(k)) == all_files(v) - v[k].usage.files,
        all_bytes(v.remove(k)) == all_bytes(v) - v[k].usage.bytes,
    decreases v.len(),
{
    if k == v.len() - 1 {
        assert(v.remove(k) =~= v.drop_last());
    } else {
        lemma_sums(v.drop_last(), k);
        assert(v.remove(k).drop_last() =~= v.drop_last().remove(k));
        assert(v.remove(k).last() == v.last());
    }
}

proof fn lemma_sums_nonnegative(v: Seq<InFlight>)
    ensures
        all_files(v) >= 0,
        all_bytes(v) >= 0,
    decreases v.len(),
{
    if v.len() > 0 {
        lemma_sums_nonnegative(v.drop_last());
    }
}

/// The right of one attempt to write.
#[derive(Debug)]
pub struct TaskBudgetReservation {
    id: u64,
    committed: bool,
}

impl TaskBudgetReservation {
    pub closed spec fn number(&self) -> u64 {
        self.id
    }

    pub closed spec fn is_committed(&self) -> bool {
        self.committed
    }

    /// Whether the attempt's output was committed.
    pub fn committed(&self) -> (r: bool)
        ensures
            r == self.is_committed(),
    {
        self.committed
    }
}

impl TaskBudget {
    /// What was committed.
    pub closed spec fn done(&self) -> Usage {
        self.committed
    }

    /// What the attempts have written so far.
    pub closed spec fn open(&self) -> Seq<InFlight> {
        self.in_flight@
    }

    pub closed spec fn attempts(&self) -> u64 {
        self.next_attempt
    }

    pub closed spec fn nested(&self) -> usize {
        self.nested_candidates
    }

    /// No two attempts have one number, and the next one will have a new one.
    pub closed spec fn wf(&self) -> bool {
        &&& forall|i: int, j: int|
            0 <= i < j < self.in_flight@.len() ==> (#[trigger] self.in_flight@[i]).id != (
            #[trigger] self.in_flight@[j]).id
        &&& forall|i: int|
            0 <= i < self.in_flight@.len() ==> (#[trigger] self.in_flight@[i]).id
                < self.next_attempt
    }

    /// The attempt is at work.
    pub open spec fn is_open(&self, i: int, id: u64) -> bool {
        0 <= i < self.open().len() && self.open()[i].id == id
    }

    /// The attempt with this number is at work.
    pub open spec fn holds(&self, id: u64) -> bool {
        exists|k: int| #[trigger] self.is_open(k, id)
    }

    /// The two budgets differ in nothing but the nested candidates.
    pub open spec fn same_but_nested(&self, other: TaskBudget) -> bool {
        &&& self.done() == other.done()
        &&& self.open() == other.open()
        &&& self.attempts() == other.attempts()
        &&& forall|id: u64| #[trigger] self.holds(id) == other.holds(id)
    }

    /// All entries, committed or not.
    pub open spec fn total_files(&self) -> int {
        self.done().files + all_files(self.open())
    }

    /// All bytes, committed or not.
    pub open spec fn total_bytes(&self) -> int {
        self.done().bytes + all_bytes(self.open())
    }

    /// Goes on from what a task had used before.
    pub fn from_snapshot(snapshot: TaskBudgetSnapshot) -> (r: TaskBudget)
        ensures
            r.wf(),
            r.done() == (Usage { files: snapshot.output_files, bytes: snapshot.output_bytes }),
            r.open().len() == 0,
            r.attempts() == 0,
            r.nested() == snapshot.nested_candidates,
    {
        TaskBudget {
            committed: Usage { files: snapshot.output_files, bytes: snapshot.output_bytes },
            in_flight: Vec::new(),
            next_attempt: 0,
            nested_candidates: snapshot.nested_candidates,
        }
    }

    /// Lets one more attempt write.
    pub fn reserve_attempt(&mut self) -> (r: TaskBudgetReservation)
        requires
            old(self).wf(),
            old(self).attempts() < u64::MAX,
        ensures
            final(self).wf(),
            r.number() == old(self).attempts(),
            !r.is_committed(),
            final(self).attempts() == old(self).attempts() + 1,
            final(self).done() == old(self).done(),
            final(self).nested() == old(self).nested(),
            final(self).open() == old(self).open().push(
                InFlight { id: r.number(), usage: Usage { files: 0, bytes: 0 } },
            ),
            forall|id: u64| #[trigger]
                final(self).holds(id) == (old(self).holds(id) || id == r.number()),
    {
        let id: u64 = self.next_attempt;
        self.next_attempt += 1;
        self.in_flight.push(InFlight { id, usage: Usage { files: 0, bytes: 0 } });
        proof {
            let n = old(self).open().len() as int;
            assert(self.is_open(n, id));
            assert forall|other: u64| #[trigger] self.holds(other) == (old(self).holds(other) || other
                == id) by {
                if self.holds(other) {
                    let k = choose|k: int| #[trigger] self.is_open(k, other);
                    assert(k < n ==> old(self).is_open(k, other));
                }
                if old(self).holds(other) {
                    let k = choose|k: int| #[trigger] old(self).is_open(k, other);
                    assert(self.is_open(k, other));
                }
            }
        }
        TaskBudgetReservation { id, committed: false }
    }

    /// Takes one more nested candidate in, up to the limit.
    pub fn reserve_nested(&mut self, limit: usize) -> (r: bool)
        requires
            old(self).wf(),
        ensures
            final(self).wf(),
            r == (old(self).nested() < limit),
            final(self).nested() == old(self).nested() + if r {
                1int
            } else {
                0int
            },
            final(self).same_but_nested(*old(self)),
    {
        if self.nested_candidates >= limit {
            return false;
        }
        self.nested_candidates += 1;
        proof {
            lemma_same_open(*old(self), *self);
        }
        true
    }

    /// Gives the place of a nested candidate back.
    pub fn release_nested(&mut self)
        requires
            old(self).wf(),
            old(self).nested() > 0,
        ensures
            final(self).wf(),
            final(self).nested() == old(self).nested() - 1,
            final(self).same_but_nested(*old(self)),
    {
        self.nested_candidates -= 1;
        proof {
            lemma_same_open(*old(self), *self);
        }
    }

    fn find(&self, id: u64) -> (r: Option<usize>)
        ensures
            match r {
                Some(i) => self.is_open(i as int, id),
                None => forall|i: int| !#[trigger] self.is_open(i, id),
            },
    {
        let mut i: usize = 0;
        while i < self.in_flight.len()
            invariant
                i <= self.in_flight@.len(),
                forall|k: int| 0 <= k < i ==> (#[trigger] self.in_flight@[k]).id != id,
            decreases self.in_flight.len() - i,
        {
            if self.in_flight[i].id == id {
                return Some(i);
            }
            i += 1;
        }
        None
    }

    /// What was committed, together with what the other attempts have written.
    fn others(&self, id: u64) -> (r: Usage)
        requires
            self.wf(),
        ensures
            forall|k: int| #[trigger]
                self.is_open(k, id) ==> r.files == cap(
                    self.total_files() - self.open()[k].usage.files,
                ) && r.bytes == cap(self.total_bytes() - self.open()[k].usage.bytes),
            (forall|k: int| !#[trigger] self.is_open(k, id)) ==> r.files == cap(self.total_files())
                && r.bytes == cap(self.total_bytes()),
    {
        let ghost v = self.in_flight@;
        let mut total: Usage = self.committed;
        let mut own: Usage = Usage { files: 0, bytes: 0 };
        let mut seen: bool = false;
        let ghost mut at: int = -1;
        let mut i: usize = 0;
        assert(v.take(0) =~= Seq::empty());
        while i < self.in_flight.len()
            invariant
                v == self.in_flight@,
                self.wf(),
                i <= v.len(),
                seen ==> 0 <= at < i && v[at].id == id && own == v[at].usage,
                !seen ==> own == (Usage { files: 0, bytes: 0 }) && forall|k: int|
                    0 <= k < i ==> (#[trigger] v[k]).id != id,
                total.files == cap(self.committed.files + all_files(v.take(i as int)) - own.files),
                total.bytes == cap(self.committed.bytes + all_bytes(v.take(i as int)) - own.bytes),
                all_files(v.take(i as int)) >= own.files,
                all_bytes(v.take(i as int)) >= own.bytes,
            decreases self.in_flight.len() - i,
        {
            proof {
                assert(v.take(i + 1).drop_last() =~= v.take(i as int));
                assert(v.take(i + 1).last() == v[i as int]);
                lemma_sums_nonnegative(v.take(i as int));
            }
            let entry = &self.in_flight[i];
            if entry.id == id {
                own = entry.usage;
                seen = true;
                proof {
                    at = i as int;
                }
            } else {
                total = Usage {
                    files: total.files.saturating_add(entry.usage.files),
                    bytes: total.bytes.saturating_add(entry.usage.bytes),
                };
            }
            i += 1;
        }
        assert(v.take(i as int) =~= v);
        assert(seen ==> self.is_open(at, id));
        total
    }

    /// Puts down what an attempt has written so far, unless the task as a whole would pass a
    /// limit with it: then nothing changes and the limit is named.
    pub fn update(
        &mut self,
        reservation: &TaskBudgetReservation,
        usage: Usage,
        limits: &ExtractionLimits,
    ) -> (r: Result<(), LimitExceeded>)
        requires
            old(self).wf(),
            old(self).holds(reservation.number()),
        ensures
            final(self).wf(),
            forall|id: u64| #[trigger] final(self).holds(id) == old(self).holds(id),
            forall|k: int| #[trigger]
                old(self).is_open(k, reservation.number()) ==> {
                    let files = cap(
                        old(self).total_files() - old(self).open()[k].usage.files + usage.files,
                    );
                    let bytes = cap(
                        old(self).total_bytes() - old(self).open()[k].usage.bytes + usage.bytes,
                    );
                    match r {
                        Err(e) => passed(files, bytes, *limits) == Some(e) && *final(self) == *old(self),
                        Ok(_) => {
                            &&& passed(files, bytes, *limits) is None
                            &&& final(self).done() == old(self).done()
                            &&& final(self).attempts() == old(self).attempts()
                            &&& final(self).nested() == old(self).nested()
                            &&& final(self).open() == old(self).open().update(
                                k,
                                InFlight { id: reservation.number(), usage },
                            )
                        },
                    }
                },
    {
        let ghost v = self.in_flight@;
        let other: Usage = self.others(reservation.id);
        let total = Usage {
            files: other.files.saturating_add(usage.files),
            bytes: other.bytes.saturating_add(usage.bytes),
        };
        proof {
            assert forall|k: int| #[trigger] self.is_open(k, reservation.number()) implies total.files
                == cap(self.total_files() - self.open()[k].usage.files + usage.files)
                && total.bytes == cap(
                self.total_bytes() - self.open()[k].usage.bytes + usage.bytes,
            ) by {
                lemma_sums(v, k);
                lemma_sums_nonnegative(v.remove(k));
            }
        }
        check_usage(total, limits)?;
        match self.find(reservation.id) {
            Some(i) => {
                self.in_flight.set(i, InFlight { id: reservation.id, usage });
                proof {
                    assert forall|k: int| #[trigger]
                        old(self).is_open(k, reservation.number()) implies k == i by {
                        assert(v[k].id == v[i as int].id);
                    }
                    assert forall|a: int| 0 <= a < v.len() implies (
                    #[trigger] self.in_flight@[a]).id == v[a].id by {}
                    assert forall|id: u64| #[trigger] self.holds(id) == old(self).holds(id) by {
                        if self.holds(id) {
                            let k = choose|k: int| #[trigger] self.is_open(k, id);
                            assert(old(self).is_open(k, id));
                        }
                        if old(self).holds(id) {
                            let k = choose|k: int| #[trigger] old(self).is_open(k, id);
                            assert(self.is_open(k, id));
                        }
                    }
                }
                Ok(())
            },
            None => {
                assert(false);
                Ok(())
            },
        }
    }

    /// What an attempt has written becomes part of the task's output.
    pub fn commit(&mut self, reservation: &mut TaskBudgetReservation) -> (r: Usage)
        requires
            old(self).wf(),
            old(self).holds(old(reservation).number()),
        ensures
            final(self).wf(),
            forall|id: u64| #[trigger]
                final(self).holds(id) == (old(self).holds(id) && id != old(reservation).number()),
            final(reservation).number() == old(reservation).number(),
            final(reservation).is_committed(),
            forall|k: int| #[trigger]
                old(self).is_open(k, old(reservation).number()) ==> {
                    &&& r == old(self).open()[k].usage
                    &&& final(self).open() == old(self).open().remove(k)
                },
            final(self).done() == (Usage {
                files: cap(old(self).done().files + r.files) as u64,
                bytes: cap(old(self).done().bytes + r.bytes) as u64,
            }),
            final(self).attempts() == old(self).attempts(),
            final(self).nested() == old(self).nested(),
    {
        let ghost v = self.in_flight@;
        match self.find(reservation.id) {
            Some(i) => {
                let entry = self.in_flight.remove(i);
                self.committed = Usage {
                    files: self.committed.files.saturating_add(entry.usage.files),
                    bytes: self.committed.bytes.saturating_add(entry.usage.bytes),
                };
                reservation.committed = true;
                proof {
                    assert forall|k: int| #[trigger]
                        old(self).is_open(k, reservation.number()) implies k == i by {
                        assert(v[k].id == v[i as int].id);
                    }
                    assert forall|a: int|
                        0 <= a < self.in_flight@.len() implies #[trigger] self.in_flight@[a]
                        == v[if a < i {
                        a
                    } else {
                        a + 1
                    }] by {}
                    lemma_one_less(*old(self), *self, i as int);
                }
                entry.usage
            },
            None => {
                assert(false);
                Usage { files: 0, bytes: 0 }
            },
        }
    }

    /// Forgets an attempt that was not committed.
    pub fn release(&mut self, reservation: TaskBudgetReservation)
        requires
            old(self).wf(),
        ensures
            final(self).wf(),
            final(self).done() == old(self).done(),
            final(self).attempts() == old(self).attempts(),
            final(self).nested() == old(self).nested(),
            forall|id: u64| #[trigger]
                final(self).holds(id) == (old(self).holds(id) && (reservation.is_committed() || id
                    != reservation.number())),
            reservation.is_committed() ==> final(self).open() == old(self).open(),
            !reservation.is_committed() ==> forall|k: int| #[trigger]
                old(self).is_open(k, reservation.number()) ==> final(self).open() == old(self).open().remove(k),
            (forall|k: int| !#[trigger] old(self).is_open(k, reservation.number())) ==> final(self).open() == old(self).open(),
    {
        if reservation.committed {
            return ;
        }
        let ghost v = self.in_flight@;
        if let Some(i) = self.find(reservation.id) {
            assert(old(self).is_open(i as int, reservation.number()));
            let _ = self.in_flight.remove(i);
            proof {
                assert forall|k: int| #[trigger]
                    old(self).is_open(k, reservation.number()) implies k == i by {
                    assert(v[k].id == v[i as int].id);
                }
                assert forall|a: int|
                    0 <= a < self.in_flight@.len() implies #[trigger] self.in_flight@[a] == v[if a
                    < i {
                    a
                } else {
                    a + 1
                }] by {}
                lemma_one_less(*old(self), *self, i as int);
            }
        }
    }
}

proof fn lemma_same_open(a: TaskBudget, b: TaskBudget)
    requires
        a.open() == b.open(),
    ensures
        forall|id: u64| #[trigger] b.holds(id) == a.holds(id),
{
    assert forall|id: u64| #[trigger] b.holds(id) == a.holds(id) by {
        if a.holds(id) {
            let k = choose|k: int| #[trigger] a.is_open(k, id);
            assert(b.is_open(k, id));
        }
        if b.holds(id) {
            let k = choose|k: int| #[trigger] b.is_open(k, id);
            assert(a.is_open(k, id));
        }
    }
}

proof fn lemma_one_less(a: TaskBudget, b: TaskBudget, i: int)
    requires
        a.wf(),
        0 <= i < a.open().len(),
        b.open() == a.open().remove(i),
    ensures
        forall|id: u64| #[trigger] b.holds(id) == (a.holds(id) && id != a.open()[i].id),
{
    assert forall|id: u64| #[trigger] b.holds(id) == (a.holds(id) && id != a.open()[i].id) by {
        if b.holds(id) {
            let k = choose|k: int| #[trigger] b.is_open(k, id);
            let j = if k < i {
                k
            } else {
                k + 1
            };
            assert(a.is_open(j, id));
            assert(a.in_flight@[i].id != a.in_flight@[j].id);
        }
        if a.holds(id) && id != a.open()[i].id {
            let k = choose|k: int| #[trigger] a.is_open(k, id);
            let j = if k < i {
                k
            } else {
                k - 1
            };
            assert(b.is_open(j, id));
        }
    }
}

/// An update that is accepted keeps the whole task within its limits, whatever its other attempts
/// have written: the sum over all attempts and all committed output does not pass them.
pub proof fn accepted_update_stays_within(
    before: TaskBudget,
    after: TaskBudget,
    k: int,
    id: u64,
    usage: Usage,
    limits: ExtractionLimits,
)
    requires
        before.is_open(k, id),
        passed(
            cap(before.total_files() - before.open()[k].usage.files + usage.files),
            cap(before.total_bytes() - before.open()[k].usage.bytes + usage.bytes),
            limits,
        ) is None,
        after.done() == before.done(),
        after.open() == before.open().update(k, InFlight { id, usage }),
    ensures
        limits.max_files != 0 && limits.max_files < u64::MAX ==> after.total_files()
            <= limits.max_files,
        limits.max_output_bytes != 0 && limits.max_output_bytes < u64::MAX ==> after.total_bytes()
            <= limits.max_output_bytes,
{
    let v = before.open();
    let w = after.open();
    lemma_sums(v, k);
    lemma_sums(w, k);
    assert(v.remove(k) =~= w.remove(k));
}

/// A commit moves an attempt's share over and changes no sum, as long as no number runs out.
pub proof fn commit_keeps_the_sum(before: TaskBudget, after: TaskBudget, k: int)
    requires
        0 <= k < before.open().len(),
        before.done().files + before.open()[k].usage.files <= u64::MAX,
        before.done().bytes + before.open()[k].usage.bytes <= u64::MAX,
        after.open() == before.open().remove(k),
        after.done() == (Usage {
            files: cap(before.done().files + before.open()[k].usage.files) as u64,
            bytes: cap(before.done().bytes + before.open()[k].usage.bytes) as u64,
        }),
    ensures
        after.total_files() == before.total_files(),
        after.total_bytes() == before.total_bytes(),
{
    lemma_sums(before.open(), k);
}

/// One regular file of an extracted tree.
#[derive(Debug, PartialEq, Eq)]
pub struct InventoryFile {
    pub relative_path: String,
    pub size: u64,
}

/// What an extracted tree holds.
#[derive(Debug, PartialEq, Eq)]
pub struct OutputInventory {
    pub root: String,
    pub usage: Usage,
    pub files: Vec<InventoryFile>,
}

/// A file as a path and a size.
pub open spec fn file_values(files: Seq<InventoryFile>) -> Seq<(Seq<char>, u64)> {
    files.map_values(|f: InventoryFile| (f.relative_path@, f.size))
}

/// The files below `source`, by what is left of their paths.
pub open spec fn files_below(files: Seq<InventoryFile>, source: Seq<char>) -> Seq<(Seq<char>, u64)>
    decreases files.len(),
{
    if files.len() == 0 {
        Seq::empty()
    } else {
        let rest = files_below(files.drop_last(), source);
        match crate::path::stripped(files.last().relative_path@, source) {
            Some(path) => rest.push((path, files.last().size)),
            None => rest,
        }
    }
}

/// The path that a plan takes from an extracted tree; nothing where it takes the whole tree.
pub open spec fn taken_path(plan: LayoutPlan) -> Option<Seq<char>> {
    if plan.kind is PreserveBothSingleDir || plan.kind is PreserveBothSingleFile {
        None
    } else {
        match plan.source {
            PlanSource::WholeTempDir => None,
            PlanSource::SingleDir(path) => Some(path@),
            PlanSource::SingleDirContents(path) => Some(path@),
            PlanSource::SingleFile(path) => Some(path@),
        }
    }
}

fn copy_files(files: &Vec<InventoryFile>) -> (r: Vec<InventoryFile>)
    ensures
        file_values(r@) == file_values(files@),
{
    let mut out: Vec<InventoryFile> = Vec::new();
    let mut i: usize = 0;
    assert(file_values(out@) =~= file_values(files@.take(0)));
    while i < files.len()
        invariant
            i <= files@.len(),
            file_values(out@) == file_values(files@.take(i as int)),
        decreases files.len() - i,
    {
        let ghost before = out@;
        out.push(
            InventoryFile { relative_path: files[i].relative_path.clone(), size: files[i].size },
        );
        i += 1;
        assert(file_values(out@) =~= file_values(before).push(
            (files@[i - 1].relative_path@, files@[i - 1].size),
        ));
        assert(file_values(files@.take(i as int)) =~= file_values(files@.take(i - 1)).push(
            (files@[i - 1].relative_path@, files@[i - 1].size),
        ));
    }
    assert(files@.take(i as int) =~= files@);
    out
}

impl OutputInventory {
    /// The files of the tree that a plan publishes, by their paths below the published root.
    /// Nothing where the plan takes from outside the tree.
    pub fn published_files(&self, plan: &LayoutPlan) -> (r: Option<Vec<InventoryFile>>)
        ensures
            match taken_path(*plan) {
                None => r is Some && file_values(r->0@) == file_values(self.files@),
                Some(path) => match crate::path::stripped(path, self.root@) {
                    None => r is None,
                    Some(source) => r is Some && file_values(r->0@) == files_below(
                        self.files@,
                        source,
                    ),
                },
            },
    {
        let both: bool = match plan.kind {
            LayoutPlanKind::PreserveBothSingleDir => true,
            LayoutPlanKind::PreserveBothSingleFile => true,
            _ => false,
        };
        if both {
            return Some(copy_files(&self.files));
        }
        let path: &String = match &plan.source {
            PlanSource::WholeTempDir => {
                return Some(copy_files(&self.files));
            },
            PlanSource::SingleDir(path) => path,
            PlanSource::SingleDirContents(path) => path,
            PlanSource::SingleFile(path) => path,
        };
        let source: String = match strip_prefix(path.as_str(), self.root.as_str()) {
            Some(source) => source,
            None => {
                return None;
            },
        };
        let mut out: Vec<InventoryFile> = Vec::new();
        let mut i: usize = 0;
        assert(file_values(out@) =~= files_below(self.files@.take(0), source@));
        while i < self.files.len()
            invariant
                i <= self.files@.len(),
                file_values(out@) == files_below(self.files@.take(i as int), source@),
            decreases self.files.len() - i,
        {
            let ghost before = out@;
            let file = &self.files[i];
            if let Some(rest) = strip_prefix(file.relative_path.as_str(), source.as_str()) {
                let ghost t = rest@;
                out.push(InventoryFile { relative_path: rest, size: file.size });
                assert(file_values(out@) =~= file_values(before).push((t, file.size)));
            }
            i += 1;
            assert(self.files@.take(i as int).drop_last() =~= self.files@.take(i - 1));
            assert(self.files@.take(i as int).last() == self.files@[i - 1]);
        }
        assert(self.files@.take(i as int) =~= self.files@);
        Some(out)
    }
}

/// One entry met on the walk through an extracted tree.
#[derive(Debug)]
pub struct TreeEntry {
    pub relative_path: String,
    pub is_file: bool,
    pub len: u64,
}

/// A walk through an extracted tree.
#[derive(Debug)]
pub struct TreeWalk {
    pub usage: Usage,
    pub files: Vec<InventoryFile>,
    pub collects: bool,
}

/// What one more entry adds.
pub open spec fn with_entry(usage: Usage, is_file: bool, len: u64) -> Usage {
    Usage {
        files: cap(usage.files + 1) as u64,
        bytes: if is_file {
            cap(usage.bytes + len) as u64
        } else {
            usage.bytes
        },
    }
}

impl TreeWalk {
    /// A walk that goes on counting from `previous`, and lists regular files or not.
    pub fn new(previous: Usage, collect_files: bool) -> (r: TreeWalk)
        ensures
            r.usage == previous,
            r.files@.len() == 0,
            r.collects == collect_files,
    {
        TreeWalk { usage: previous, files: Vec::new(), collects: collect_files }
    }

    /// Counts one entry below the root. Every entry counts, but only regular files have bytes and
    /// are listed.
    pub fn visit(&mut self, entry: TreeEntry, limits: &ExtractionLimits) -> (r: Result<
        (),
        LimitExceeded,
    >)
        ensures
            final(self).collects == old(self).collects,
            final(self).usage == with_entry(old(self).usage, entry.is_file, entry.len),
            final(self).files@ == (if entry.is_file && old(self).collects {
                old(self).files@.push(
                    InventoryFile { relative_path: entry.relative_path, size: entry.len },
                )
            } else {
                old(self).files@
            }),
            match r {
                Ok(_) => passed(
                    final(self).usage.files as int,
                    final(self).usage.bytes as int,
                    *limits,
                ) is None,
                Err(e) => passed(
                    final(self).usage.files as int,
                    final(self).usage.bytes as int,
                    *limits,
                ) == Some(e),
            },
    {
        self.usage.files = self.usage.files.saturating_add(1);
        if entry.is_file {
            self.usage.bytes = self.usage.bytes.saturating_add(entry.len);
            if self.collects {
                self.files.push(
                    InventoryFile { relative_path: entry.relative_path, size: entry.len },
                );
            }
        }
        check_usage(self.usage, limits)
    }

    /// The inventory of the tree that was walked.
    pub fn finish(self, root: String) -> (r: OutputInventory)
        ensures
            r.root == root,
            r.usage == self.usage,
            r.files == self.files,
    {
        OutputInventory { root, usage: self.usage, files: self.files }
    }
}

/// Whether the free space has to be asked for at all.
pub fn watches_free_space(limits: &ExtractionLimits) -> (r: bool)
    ensures
        r == (limits.min_free_bytes != 0),
{
    limits.min_free_bytes != 0
}

/// Whether enough space is left.
pub fn check_free_space(free_bytes: u64, limits: &ExtractionLimits) -> (r: Result<
    (),
    LimitExceeded,
>)
    ensures
        match r {
            Ok(_) => limits.min_free_bytes == 0 || free_bytes >= limits.min_free_bytes,
            Err(e) => limits.min_free_bytes != 0 && free_bytes < limits.min_free_bytes && e
                == LimitExceeded::FreeSpace(limits.min_free_bytes),
        },
{
    if limits.min_free_bytes == 0 {
        return Ok(());
    }
    if free_bytes < limits.min_free_bytes {
        return Err(LimitExceeded::FreeSpace(limits.min_free_bytes));
    }
    Ok(())
}

/// How an extraction is watched: not at all while it runs, or with checks once a second of the
/// free space and, less often, of the whole tree.
#[derive(Clone, Copy, Debug, PartialEq, Eq, Structural)]
pub struct WatchPlan {
    pub polls: bool,
    pub walks_tree: bool,
}

/// Plans the watch over an extraction: only limits that apply cost anything.
pub fn watch_plan(limits: &ExtractionLimits) -> (r: WatchPlan)
    ensures
        r.walks_tree == (limits.max_files != 0 || limits.max_output_bytes != 0),
        r.polls == (r.walks_tree || limits.min_free_bytes != 0),
{
    let walks_tree: bool = limits.max_files != 0 || limits.max_output_bytes != 0;
    WatchPlan { polls: walks_tree || limits.min_free_bytes != 0, walks_tree }
}

/// The pause between two checks, in nanoseconds.
pub const WATCH_PERIOD: u64 = 1000000000;

/// Whether a check walks the whole tree: only from its due time on.
pub fn walk_is_due(plan: WatchPlan, now: u64, due: u64) -> (r: bool)
    ensures
        r == (plan.walks_tree && now >= due),
{
    plan.walks_tree && now >= due
}

/// When the tree is walked again: a walk takes at most a fifth of the time, and there is at least
/// one period between two.
pub fn next_walk(now: u64, walk_took: u64) -> (r: u64)
    ensures
        r == cap(now + if 4 * walk_took > WATCH_PERIOD {
            4 * walk_took as int
        } else {
            WATCH_PERIOD as int
        }),
{
    let four: u64 = walk_took.saturating_add(walk_took).saturating_add(walk_took).saturating_add(
        walk_took,
    );
    let delay: u64 = if four > WATCH_PERIOD {
        four
    } else {
        WATCH_PERIOD
    };
    now.saturating_add(delay)
}

/// How far the end of a watched extraction has come.
#[derive(Clone, Copy, Debug, PartialEq, Eq, Structural)]
pub enum WatchPhase {
    /// The extraction has ended, and nobody has looked yet whether it was cancelled.
    Extracted,
    /// What it left behind has to be counted.
    Counting,
    /// What was counted is put down for the attempt, and nobody has looked again yet.
    Reserved(Usage),
    /// The watch is over, and this is what was left behind.
    Done(Usage),
    Cancelled,
    Exceeded(LimitExceeded),
}

/// What was found out at the end of a watched extraction.
#[derive(Clone, Copy, Debug, PartialEq, Eq, Structural)]
pub enum WatchNews {
    Looked { cancelled: bool },
    Counted { usage: Usage },
}

/// What follows at the end of a watch, where `passed` is the limit that the count passes. News
/// that nobody waits for changes nothing.
pub open spec fn next_phase(
    phase: WatchPhase,
    news: WatchNews,
    passed: Option<LimitExceeded>,
) -> WatchPhase {
    match (phase, news) {
        (WatchPhase::Extracted, WatchNews::Looked { cancelled }) => if cancelled {
            WatchPhase::Cancelled
        } else {
            WatchPhase::Counting
        },
        (WatchPhase::Counting, WatchNews::Counted { usage }) => match passed {
            Some(limit) => WatchPhase::Exceeded(limit),
            None => WatchPhase::Reserved(usage),
        },
        (WatchPhase::Reserved(usage), WatchNews::Looked { cancelled }) => if cancelled {
            WatchPhase::Cancelled
        } else {
            WatchPhase::Done(usage)
        },
        _ => phase,
    }
}

/// The limit that the whole task passes once the attempt at `k` has written this much.
pub open spec fn passed_with(
    budget: TaskBudget,
    k: int,
    usage: Usage,
    limits: ExtractionLimits,
) -> Option<LimitExceeded> {
    passed(
        cap(budget.total_files() - budget.open()[k].usage.files + usage.files),
        cap(budget.total_bytes() - budget.open()[k].usage.bytes + usage.bytes),
        limits,
    )
}

/// Takes one step at the end of a watched extraction: it looks whether the task was cancelled,
/// counts what was left behind and puts the count down for the attempt, and looks again.
pub fn end_watch(
    phase: WatchPhase,
    news: WatchNews,
    budget: &mut TaskBudget,
    reservation: &TaskBudgetReservation,
    limits: &ExtractionLimits,
) -> (r: WatchPhase)
    requires
        old(budget).wf(),
        old(budget).holds(reservation.number()),
    ensures
        final(budget).wf(),
        forall|id: u64| #[trigger] final(budget).holds(id) == old(budget).holds(id),
        forall|k: int| #[trigger]
            old(budget).is_open(k, reservation.number()) ==> {
                &&& r == next_phase(
                    phase,
                    news,
                    match news {
                        WatchNews::Counted { usage } => passed_with(*old(budget), k, usage, *limits),
                        WatchNews::Looked { .. } => None,
                    },
                )
                &&& match (phase, r) {
                    (WatchPhase::Counting, WatchPhase::Reserved(usage)) => {
                        &&& final(budget).done() == old(budget).done()
                        &&& final(budget).attempts() == old(budget).attempts()
                        &&& final(budget).nested() == old(budget).nested()
                        &&& final(budget).open() == old(budget).open().update(
                            k,
                            InFlight { id: reservation.number(), usage },
                        )
                    },
                    _ => *final(budget) == *old(budget),
                }
            },
{
    match (phase, news) {
        (WatchPhase::Extracted, WatchNews::Looked { cancelled }) => if cancelled {
            WatchPhase::Cancelled
        } else {
            WatchPhase::Counting
        },
        (WatchPhase::Counting, WatchNews::Counted { usage }) => {
            match budget.update(reservation, usage, limits) {
                Ok(()) => WatchPhase::Reserved(usage),
                Err(limit) => WatchPhase::Exceeded(limit),
            }
        },
        (WatchPhase::Reserved(usage), WatchNews::Looked { cancelled }) => if cancelled {
            WatchPhase::Cancelled
        } else {
            WatchPhase::Done(usage)
        },
        _ => phase,
    }
}

/// What a watch comes to by what was found out, one thing after the other, with the limit that
/// each count passes.
pub open spec fn phase_after(found: Seq<(WatchNews, Option<LimitExceeded>)>) -> WatchPhase
    decreases found.len(),
{
    if found.len() == 0 {
        WatchPhase::Extracted
    } else {
        next_phase(phase_after(found.drop_last()), found.last().0, found.last().1)
    }
}

/// A watch is over only after somebody looked and the task was not cancelled, then what the
/// extraction left behind was counted within the limits, and then somebody looked again and the
/// task was still not cancelled. What it gives is that count.
pub proof fn finished_watch_counted_last(
    found: Seq<(WatchNews, Option<LimitExceeded>)>,
    usage: Usage,
)
    requires
        phase_after(found) == WatchPhase::Done(usage),
    ensures
        exists|i: int, j: int, k: int|
            0 <= i < j < k < found.len() && (#[trigger] found[i]).0 == (WatchNews::Looked {
                cancelled: false,
            }) && #[trigger] found[j] == (WatchNews::Counted { usage }, None::<LimitExceeded>) && (
            #[trigger] found[k]).0 == (WatchNews::Looked { cancelled: false }),
{
    lemma_way_to_phase(found);
}

proof fn lemma_way_to_phase(found: Seq<(WatchNews, Option<LimitExceeded>)>)
    ensures
        phase_after(found) is Counting ==> exists|i: int|
            0 <= i < found.len() && (#[trigger] found[i]).0 == (WatchNews::Looked {
                cancelled: false,
            }),
        phase_after(found) matches WatchPhase::Reserved(usage) ==> exists|i: int, j: int|
            0 <= i < j < found.len() && (#[trigger] found[i]).0 == (WatchNews::Looked {
                cancelled: false,
            }) && #[trigger] found[j] == (WatchNews::Counted { usage }, None::<LimitExceeded>),
        phase_after(found) matches WatchPhase::Done(usage) ==> exists|i: int, j: int, k: int|
            0 <= i < j < k < found.len() && (#[trigger] found[i]).0 == (WatchNews::Looked {
                cancelled: false,
            }) && #[trigger] found[j] == (WatchNews::Counted { usage }, None::<LimitExceeded>) && (
            #[trigger] found[k]).0 == (WatchNews::Looked { cancelled: false }),
    decreases found.len(),
{
    if found.len() > 0 {
        let rest = found.drop_last();
        let n = found.len() - 1;
        lemma_way_to_phase(rest);
        assert(found[n] == found.last());
        match phase_after(rest) {
            WatchPhase::Extracted => {},
            WatchPhase::Counting => {
                let i = choose|i: int|
                    0 <= i < rest.len() && (#[trigger] rest[i]).0 == (WatchNews::Looked {
                        cancelled: false,
                    });
                assert(found[i] == rest[i]);
            },
            WatchPhase::Reserved(usage) => {
                let (i, j) = choose|i: int, j: int|
                    0 <= i < j < rest.len() && (#[trigger] rest[i]).0 == (WatchNews::Looked {
                        cancelled: false,
                    }) && #[trigger] rest[j] == (
                        WatchNews::Counted { usage },
                        None::<LimitExceeded>,
                    );
                assert(found[i] == rest[i] && found[j] == rest[j]);
            },
            WatchPhase::Done(usage) => {
                let (i, j, k) = choose|i: int, j: int, k: int|
                    0 <= i < j < k < rest.len() && (#[trigger] rest[i]).0 == (WatchNews::Looked {
                        cancelled: false,
                    }) && #[trigger] rest[j] == (
                        WatchNews::Counted { usage },
                        None::<LimitExceeded>,
                    ) && (#[trigger] rest[k]).0 == (WatchNews::Looked { cancelled: false });
                assert(found[i] == rest[i] && found[j] == rest[j] && found[k] == rest[k]);
            },
            _ => {},
        }
    }
}

/// A limit is passed exactly where there is one and more is written than it allows. Of two limits
/// that are passed, the one on the entries is told.
pub proof fn limits_are_passed_by_more(files: int, bytes: int, limits: ExtractionLimits)
    ensures
        passed(files, bytes, limits) is None <==> (limits.max_files == 0 || files
            <= limits.max_files) && (limits.max_output_bytes == 0 || bytes
            <= limits.max_output_bytes),
        passed(files, bytes, limits) matches Some(LimitExceeded::Entries(n)) ==> n
            == limits.max_files && files > n && n > 0,
        passed(files, bytes, limits) matches Some(LimitExceeded::Bytes(n)) ==> n
            == limits.max_output_bytes && bytes > n && n > 0,
        limits.max_files != 0 && files > limits.max_files ==> passed(files, bytes, limits) == Some(
            LimitExceeded::Entries(limits.max_files),
        ),
        passed(files, bytes, limits) is Some ==> passed(files, bytes, limits)->0 is Entries
            || passed(files, bytes, limits)->0 is Bytes,
{
}

/// What is within the limits stays so with less written.
pub proof fn less_stays_within(files: int, bytes: int, f: int, b: int, limits: ExtractionLimits)
    requires
        passed(files, bytes, limits) is None,
        f <= files,
        b <= bytes,
    ensures
        passed(f, b, limits) is None,
{
}

/// Every entry counts as one, and of the entries only files count with their bytes.
pub proof fn entries_count_once(usage: Usage, is_file: bool, len: u64)
    requires
        usage.files < u64::MAX,
        usage.bytes + len <= u64::MAX,
    ensures
        with_entry(usage, is_file, len).files == usage.files + 1,
        with_entry(usage, true, len).bytes == usage.bytes + len,
        with_entry(usage, false, len).bytes == usage.bytes,
{
}

/// A plan that keeps both names takes the whole tree, as one of the whole tree does; any other
/// takes its one item.
pub proof fn plan_takes_its_item(plan: LayoutPlan)
    ensures
        plan.kind is PreserveBothSingleDir || plan.kind is PreserveBothSingleFile ==> taken_path(plan)
            is None,
        plan.source is WholeTempDir ==> taken_path(plan) is None,
        !(plan.kind is PreserveBothSingleDir) && !(plan.kind is PreserveBothSingleFile) ==> (
        match plan.source {
            PlanSource::WholeTempDir => true,
            PlanSource::SingleDir(path) => taken_path(plan) == Some(path@),
            PlanSource::SingleDirContents(path) => taken_path(plan) == Some(path@),
            PlanSource::SingleFile(path) => taken_path(plan) == Some(path@),
        }),
{
}

/// A watch ends as cancelled only where a look said so, and over a limit only where the count
/// passed it; it is done only after a count and a second look, with just what was counted. What
/// has ended stays as it is.
pub proof fn watch_ends_as_it_was_seen(
    phase: WatchPhase,
    news: WatchNews,
    passed: Option<LimitExceeded>,
)
    ensures
        next_phase(phase, news, passed) is Cancelled && phase !is Cancelled ==> news == (
        WatchNews::Looked { cancelled: true }),
        phase !is Exceeded ==> (next_phase(phase, news, passed) matches WatchPhase::Exceeded(limit)
            ==> phase is Counting && passed == Some(limit)),
        phase is Counting && news is Counted && passed is Some ==> next_phase(phase, news, passed)
            == WatchPhase::Exceeded(passed->0),
        phase is Counting && passed is None ==> (news matches WatchNews::Counted { usage }
            ==> next_phase(phase, news, passed) == WatchPhase::Reserved(usage)),
        phase !is Done ==> (next_phase(phase, news, passed) matches WatchPhase::Done(usage) ==> phase
            == WatchPhase::Reserved(usage) && news == (WatchNews::Looked { cancelled: false })),
        phase matches WatchPhase::Reserved(usage) ==> next_phase(
            phase,
            WatchNews::Looked { cancelled: false },
            passed,
        ) == WatchPhase::Done(usage),
        phase is Extracted ==> next_phase(phase, WatchNews::Looked { cancelled: false }, passed)
            is Counting,
        phase is Extracted || phase is Reserved ==> next_phase(
            phase,
            WatchNews::Looked { cancelled: true },
            passed,
        ) is Cancelled,
        phase is Done || phase is Cancelled || phase is Exceeded ==> next_phase(phase, news, passed)
            == phase,
{
}

} // verus!
