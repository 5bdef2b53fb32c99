//! Atomic admission of work to bounded resources.

use vstd::prelude::*;
use crate::path::path_starts_with;
use crate::text::same_text;

verus! {

/// How much of each named domain, a domain being named once.
#[derive(Debug)]
pub struct DomainUnits {
    names: Vec<String>,
    units: Vec<u32>,
}

/// The amount for a name; none counts as zero.
pub open spec fn amount(m: Map<Seq<char>, u32>, d: Seq<char>) -> u32 {
    if m.contains_key(d) {
        m[d]
    } else {
        0
    }
}

impl View for DomainUnits {
    type V = Map<Seq<char>, u32>;

    closed spec fn view(&self) -> Map<Seq<char>, u32> {
        Map::new(
            |d: Seq<char>| exists|i: int| 0 <= i < self.names@.len() && #[trigger] self.names@[i]@ == d,
            |d: Seq<char>|
                self.units@[choose|i: int| 0 <= i < self.names@.len() && #[trigger] self.names@[i]@ == d],
        )
    }
}

impl DomainUnits {
    /// No domain is named twice.
    pub closed spec fn wf(&self) -> bool {
        &&& self.names@.len() == self.units@.len()
        &&& forall|i: int, j: int|
            0 <= i < j < self.names@.len() ==> #[trigger] self.names@[i]@
                != #[trigger] self.names@[j]@
    }

    proof fn lemma_at(&self, i: int)
        requires
            self.wf(),
            0 <= i < self.names@.len(),
        ensures
            self@.contains_key(self.names@[i]@),
            self@[self.names@[i]@] == self.units@[i],
    {
        let d = self.names@[i]@;
        let k = choose|k: int| 0 <= k < self.names@.len() && #[trigger] self.names@[k]@ == d;
        assert(self.names@[i]@ == d);
        assert(k == i);
    }

    /// The text at a position, for walking through the domains.
    pub closed spec fn name_at(&self, i: int) -> Seq<char> {
        self.names@[i]@
    }

    /// How many domains are named.
    pub closed spec fn count(&self) -> nat {
        self.names@.len()
    }

    /// The domains by position are the domains of the map.
    pub proof fn lemma_positions(&self)
        requires
            self.wf(),
        ensures
            forall|i: int| 0 <= i < self.count() ==> self@.contains_key(#[trigger] self.name_at(i)),
            forall|i: int, j: int|
                0 <= i < j < self.count() ==> #[trigger] self.name_at(i) != #[trigger] self.name_at(j),
            forall|d: Seq<char>| #[trigger]
                self@.contains_key(d) ==> exists|i: int|
                    0 <= i < self.count() && #[trigger] self.name_at(i) == d,
    {
        assert forall|i: int| 0 <= i < self.count() implies self@.contains_key(
            #[trigger] self.name_at(i),
        ) by {
            self.lemma_at(i);
        }
        assert forall|d: Seq<char>| #[trigger] self@.contains_key(d) implies exists|i: int|
            0 <= i < self.count() && #[trigger] self.name_at(i) == d by {
            let i = choose|i: int| 0 <= i < self.names@.len() && #[trigger] self.names@[i]@ == d;
            assert(self.name_at(i) == d);
        }
    }

    pub fn new() -> (r: DomainUnits)
        ensures
            r.wf(),
            r@ == Map::<Seq<char>, u32>::empty(),
            r.count() == 0,
    {
        let r = DomainUnits { names: Vec::new(), units: Vec::new() };
        assert(r@ =~= Map::<Seq<char>, u32>::empty());
        r
    }

    pub fn len(&self) -> (r: usize)
        requires
            self.wf(),
        ensures
            r == self.count(),
    {
        self.names.len()
    }

    /// The domain at a position and its amount.
    pub fn at(&self, i: usize) -> (r: (&String, u32))
        requires
            self.wf(),
            i < self.count(),
        ensures
            r.0@ == self.name_at(i as int),
            self@.contains_key(r.0@),
            self@[r.0@] == r.1,
    {
        proof {
            self.lemma_at(i as int);
        }
        (&self.names[i], self.units[i])
    }

    fn find(&self, name: &str) -> (r: Option<usize>)
        requires
            self.wf(),
        ensures
            match r {
                Some(i) => i < self.names@.len() && self.names@[i as int]@ == name@,
                None => !self@.contains_key(name@),
            },
    {
        let mut i: usize = 0;
        while i < self.names.len()
            invariant
                i <= self.names@.len(),
                forall|k: int| 0 <= k < i ==> #[trigger] self.names@[k]@ != name@,
            decreases self.names.len() - i,
        {
            if same_text(self.names[i].as_str(), name) {
                return Some(i);
            }
            i += 1;
        }
        None
    }

    /// Whether a name is there.
    pub fn has(&self, name: &str) -> (r: bool)
        requires
            self.wf(),
        ensures
            r == self@.contains_key(name@),
    {
        match self.find(name) {
            Some(i) => {
                proof {
                    self.lemma_at(i as int);
                }
                true
            },
            None => false,
        }
    }

    /// The amount for a name; none counts as zero.
    pub fn get(&self, name: &str) -> (r: u32)
        requires
            self.wf(),
        ensures
            r == amount(self@, name@),
    {
        match self.find(name) {
            Some(i) => {
                proof {
                    self.lemma_at(i as int);
                }
                self.units[i]
            },
            None => 0,
        }
    }

    /// Sets the amount for a name.
    pub fn set(&mut self, name: &str, units: u32)
        requires
            old(self).wf(),
        ensures
            final(self).wf(),
            final(self)@ == old(self)@.insert(name@, units),
    {
        let ghost before = *self;
        match self.find(name) {
            Some(i) => {
                self.units.set(i, units);
                proof {
                    assert forall|d: Seq<char>| #[trigger] self@.contains_key(d) == before@.insert(
                        name@,
                        units,
                    ).contains_key(d) by {
                        if d == name@ {
                            assert(self.names@[i as int]@ == d);
                        }
                    }
                    assert forall|d: Seq<char>| #[trigger] self@.contains_key(d) implies self@[d]
                        == before@.insert(name@, units)[d] by {
                        let k = choose|k: int|
                            0 <= k < self.names@.len() && #[trigger] self.names@[k]@ == d;
                        self.lemma_at(k);
                        before.lemma_at(k);
                        if d == name@ {
                            assert(k == i);
                        }
                    }
                    assert(self@ =~= before@.insert(name@, units));
                }
            },
            None => {
                self.names.push(name.to_owned());
                self.units.push(units);
                proof {
                    let n = before.names@.len() as int;
                    assert forall|a: int, b: int| 0 <= a < b < self.names@.len() implies #[trigger] self.names@[a]@
                        != #[trigger] self.names@[b]@ by {
                        assert(a < n ==> before.names@[a] == self.names@[a]);
                        if b == n {
                            before.lemma_at(a);
                        }
                    }
                    assert forall|d: Seq<char>| #[trigger] self@.contains_key(d) == before@.insert(
                        name@,
                        units,
                    ).contains_key(d) by {
                        if before@.contains_key(d) {
                            let k = choose|k: int|
                                0 <= k < before.names@.len() && #[trigger] before.names@[k]@ == d;
                            assert(self.names@[k]@ == d);
                        }
                        if d == name@ {
                            assert(self.names@[n]@ == d);
                        }
                        if self@.contains_key(d) {
                            let k = choose|k: int|
                                0 <= k < self.names@.len() && #[trigger] self.names@[k]@ == d;
                            if k < n {
                                assert(before.names@[k]@ == d);
                            }
                        }
                    }
                    assert forall|d: Seq<char>| #[trigger] self@.contains_key(d) implies self@[d]
                        == before@.insert(name@, units)[d] by {
                        let k = choose|k: int|
                            0 <= k < self.names@.len() && #[trigger] self.names@[k]@ == d;
                        self.lemma_at(k);
                        if k < n {
                            before.lemma_at(k);
                            assert(before.names@[k]@ == d);
                        }
                    }
                    assert(self@ =~= before@.insert(name@, units));
                }
            },
        }
    }

    /// Forgets a name.
    pub fn remove(&mut self, name: &str)
        requires
            old(self).wf(),
        ensures
            final(self).wf(),
            final(self)@ == old(self)@.remove(name@),
    {
        let ghost before = *self;
        match self.find(name) {
            None => {
                assert(self@ =~= before@.remove(name@));
            },
            Some(i) => {
                let _ = self.names.remove(i);
                let _ = self.units.remove(i);
                proof {
                    let n = before.names@.len() as int;
                    assert forall|a: int|
                        0 <= a < self.names@.len() implies #[trigger] self.names@[a] == before.names@[if a
                        < i {
                        a
                    } else {
                        a + 1
                    }] by {}
                    assert forall|a: int, b: int| 0 <= a < b < self.names@.len() implies #[trigger] self.names@[a]@
                        != #[trigger] self.names@[b]@ by {}
                    assert forall|d: Seq<char>| #[trigger] self@.contains_key(d) == before@.remove(
                        name@,
                    ).contains_key(d) by {
                        if before@.contains_key(d) && d != name@ {
                            let k = choose|k: int|
                                0 <= k < before.names@.len() && #[trigger] before.names@[k]@ == d;
                            let k1 = if k < i {
                                k
                            } else {
                                k - 1
                            };
                            assert(self.names@[k1]@ == d);
                        }
                        if self@.contains_key(d) {
                            let k = choose|k: int|
                                0 <= k < self.names@.len() && #[trigger] self.names@[k]@ == d;
                            let k0 = if k < i {
                                k
                            } else {
                                k + 1
                            };
                            assert(before.names@[k0]@ == d);
                        }
                    }
                    assert forall|d: Seq<char>| #[trigger] self@.contains_key(d) implies self@[d]
                        == before@.remove(name@)[d] by {
                        let k = choose|k: int|
                            0 <= k < self.names@.len() && #[trigger] self.names@[k]@ == d;
                        self.lemma_at(k);
                        let k0 = if k < i {
                            k
                        } else {
                            k + 1
                        };
                        before.lemma_at(k0);
                    }
                    assert(self@ =~= before@.remove(name@));
                }
            },
        }
    }

    /// A copy with the same domains.
    pub fn copy(&self) -> (r: DomainUnits)
        requires
            self.wf(),
        ensures
            r.wf(),
            r@ == self@,
    {
        let mut names: Vec<String> = Vec::new();
        let mut units: Vec<u32> = Vec::new();
        let mut i: usize = 0;
        while i < self.names.len()
            invariant
                self.wf(),
                i <= self.names@.len(),
                names@ == self.names@.take(i as int),
                units@ == self.units@.take(i as int),
            decreases self.names.len() - i,
        {
            names.push(self.names[i].clone());
            units.push(self.units[i]);
            i += 1;
            assert(names@ =~= self.names@.take(i as int));
            assert(units@ =~= self.units@.take(i as int));
        }
        assert(names@ =~= self.names@);
        assert(units@ =~= self.units@);
        DomainUnits { names, units }
    }
}

/// Everything that one piece of work needs at once.
#[derive(Debug)]
pub struct ResourceRequest {
    pub cpu_units: u32,
    pub memory_bytes: u64,
    pub backend_processes: u32,
    pub temporary_bytes: u64,
    pub io_domains: DomainUnits,
    pub artifact_reads: Vec<String>,
    pub target_paths: Vec<String>,
}

/// What a request asks for.
#[verifier::ext_equal]
pub struct Demand {
    pub cpu_units: u32,
    pub memory_bytes: u64,
    pub backend_processes: u32,
    pub temporary_bytes: u64,
    pub io_domains: Map<Seq<char>, u32>,
    pub artifact_reads: Seq<Seq<char>>,
    pub target_paths: Seq<Seq<char>>,
}

impl View for ResourceRequest {
    type V = Demand;

    open spec fn view(&self) -> Demand {
        Demand {
            cpu_units: self.cpu_units,
            memory_bytes: self.memory_bytes,
            backend_processes: self.backend_processes,
            temporary_bytes: self.temporary_bytes,
            io_domains: self.io_domains@,
            artifact_reads: crate::text::texts(self.artifact_reads@),
            target_paths: crate::text::texts(self.target_paths@),
        }
    }
}

/// The demand for nothing.
pub open spec fn no_demand() -> Demand {
    Demand {
        cpu_units: 0,
        memory_bytes: 0,
        backend_processes: 0,
        temporary_bytes: 0,
        io_domains: Map::empty(),
        artifact_reads: Seq::empty(),
        target_paths: Seq::empty(),
    }
}

fn copy_texts(v: &Vec<String>) -> (r: Vec<String>)
    ensures
        r@ == v@,
{
    let mut out: Vec<String> = Vec::new();
    let mut i: usize = 0;
    while i < v.len()
        invariant
            i <= v@.len(),
            out@ == v@.take(i as int),
        decreases v.len() - i,
    {
        out.push(v[i].clone());
        i += 1;
        assert(out@ =~= v@.take(i as int));
    }
    assert(out@ =~= v@);
    out
}

impl ResourceRequest {
    pub open spec fn wf(&self) -> bool {
        self.io_domains.wf()
    }

    /// A copy that asks for the same.
    pub fn copy(&self) -> (r: ResourceRequest)
        requires
            self.wf(),
        ensures
            r.wf(),
            r@ == self@,
    {
        ResourceRequest {
            cpu_units: self.cpu_units,
            memory_bytes: self.memory_bytes,
            backend_processes: self.backend_processes,
            temporary_bytes: self.temporary_bytes,
            io_domains: self.io_domains.copy(),
            artifact_reads: copy_texts(&self.artifact_reads),
            target_paths: copy_texts(&self.target_paths),
        }
    }
}

impl Default for ResourceRequest {
    fn default() -> (r: ResourceRequest)
        ensures
            r.wf(),
            r@ == no_demand(),
    {
        let r = ResourceRequest {
            cpu_units: 0,
            memory_bytes: 0,
            backend_processes: 0,
            temporary_bytes: 0,
            io_domains: DomainUnits::new(),
            artifact_reads: Vec::new(),
            target_paths: Vec::new(),
        };
        assert(r@ =~= no_demand());
        r
    }
}

/// All that there is of each resource.
#[derive(Debug)]
pub struct ResourceCapacity {
    pub cpu_units: u32,
    pub memory_bytes: u64,
    pub backend_processes: u32,
    pub temporary_bytes: u64,
    pub io_domains: DomainUnits,
}

impl View for ResourceCapacity {
    type V = Demand;

    open spec fn view(&self) -> Demand {
        Demand {
            cpu_units: self.cpu_units,
            memory_bytes: self.memory_bytes,
            backend_processes: self.backend_processes,
            temporary_bytes: self.temporary_bytes,
            io_domains: self.io_domains@,
            artifact_reads: Seq::empty(),
            target_paths: Seq::empty(),
        }
    }
}

impl ResourceCapacity {
    pub open spec fn wf(&self) -> bool {
        self.io_domains.wf()
    }
}

impl Default for ResourceCapacity {
    fn default() -> (r: ResourceCapacity)
        ensures
            r.wf(),
            r.cpu_units == 0,
            r.memory_bytes == 0,
            r.backend_processes == 0,
            r.temporary_bytes == 0,
            r.io_domains@ == Map::<Seq<char>, u32>::empty(),
    {
        ResourceCapacity {
            cpu_units: 0,
            memory_bytes: 0,
            backend_processes: 0,
            temporary_bytes: 0,
            io_domains: DomainUnits::new(),
        }
    }
}

/// Why work is not admitted.
#[derive(Clone, Copy, Debug, PartialEq, Eq, Structural)]
pub enum AdmissionFailure {
    /// Others hold what is needed.
    TemporarilyUnavailable,
    /// There is not enough even with nobody else at work.
    ExceedsCapacity,
}

/// The right to use what was asked for, until it is given back.
#[derive(Debug)]
pub struct ResourceLease {
    id: u64,
    request: ResourceRequest,
}

impl ResourceLease {
    pub closed spec fn number(&self) -> u64 {
        self.id
    }

    pub closed spec fn demand(&self) -> Demand {
        self.request@
    }

    pub closed spec fn wf(&self) -> bool {
        self.request.wf()
    }
}

/// Hands resources out and takes them back.
#[derive(Debug)]
pub struct ResourceBroker {
    capacity: ResourceCapacity,
    used: ResourceRequest,
    next_lease: u64,
    active: Vec<ResourceLease>,
}

/// A demand under a number.
pub struct Grant {
    pub id: u64,
    pub demand: Demand,
}

/// The sum of one quantity over all grants.
pub open spec fn total(grants: Seq<Grant>, of: spec_fn(Demand) -> int) -> int
    decreases grants.len(),
{
    if grants.len() == 0 {
        0
    } else {
        total(grants.drop_last(), of) + of(grants.last().demand)
    }
}

proof fn lemma_total_remove(grants: Seq<Grant>, k: int, of: spec_fn(Demand) -> int)
    requires
        0 <= k < grants.len(),
    ensures
        total(grants.remove(k), of) == total(grants, of) - of(grants[k].demand),
    decreases grants.len(),
{
    if k == grants.len() - 1 {
        assert(grants.remove(k) =~= grants.drop_last());
    } else {
        lemma_total_remove(grants.drop_last(), k, of);
        assert(grants.remove(k).drop_last() =~= grants.drop_last().remove(k));
        assert(grants.remove(k).last() == grants.last());
    }
}

proof fn lemma_total_covers(grants: Seq<Grant>, k: int, of: spec_fn(Demand) -> int)
    requires
        0 <= k < grants.len(),
        forall|d: Demand| 0 <= #[trigger] of(d),
    ensures
        of(grants[k].demand) <= total(grants, of),
        0 <= total(grants, of),
    decreases grants.len(),
{
    assert(0 <= of(grants.last().demand));
    if k == grants.len() - 1 {
        if grants.len() > 1 {
            lemma_total_covers(grants.drop_last(), 0, of);
        } else {
            assert(total(grants.drop_last(), of) == 0);
        }
    } else {
        lemma_total_covers(grants.drop_last(), k, of);
    }
}

pub open spec fn cpu_of() -> spec_fn(Demand) -> int {
    |d: Demand| d.cpu_units as int
}

pub open spec fn memory_of() -> spec_fn(Demand) -> int {
    |d: Demand| d.memory_bytes as int
}

pub open spec fn processes_of() -> spec_fn(Demand) -> int {
    |d: Demand| d.backend_processes as int
}

pub open spec fn temporary_of() -> spec_fn(Demand) -> int {
    |d: Demand| d.temporary_bytes as int
}

pub open spec fn domain_of(name: Seq<char>) -> spec_fn(Demand) -> int {
    |d: Demand| amount(d.io_domains, name) as int
}

/// One path is the other, or lies below it.
pub open spec fn overlap(a: Seq<char>, b: Seq<char>) -> bool {
    crate::path::same(a, b) || crate::path::below(a, b) || crate::path::below(b, a)
}

/// Some path of one list overlaps some path of the other.
pub open spec fn any_overlap(a: Seq<Seq<char>>, b: Seq<Seq<char>>) -> bool {
    exists|i: int, j: int| 0 <= i < a.len() && 0 <= j < b.len() && #[trigger] overlap(a[i], b[j])
}

/// The two demands cannot be met at once: what one writes the other reads or writes.
pub open spec fn conflict(wanted: Demand, held: Demand) -> bool {
    ||| any_overlap(wanted.target_paths, held.artifact_reads)
    ||| any_overlap(wanted.target_paths, held.target_paths)
    ||| any_overlap(wanted.artifact_reads, held.target_paths)
}

/// No grant clashes with an earlier one.
pub open spec fn at_peace(grants: Seq<Grant>) -> bool {
    forall|i: int, j: int|
        0 <= i < j < grants.len() ==> !conflict(
            (#[trigger] grants[j]).demand,
            (#[trigger] grants[i]).demand,
        )
}

proof fn lemma_conflict_is_mutual(a: Demand, b: Demand)
    ensures
        conflict(a, b) == conflict(b, a),
{
    lemma_overlap_is_mutual(a.target_paths, b.artifact_reads);
    lemma_overlap_is_mutual(a.target_paths, b.target_paths);
    lemma_overlap_is_mutual(a.artifact_reads, b.target_paths);
}

proof fn lemma_overlap_is_mutual(a: Seq<Seq<char>>, b: Seq<Seq<char>>)
    ensures
        any_overlap(a, b) == any_overlap(b, a),
{
    if any_overlap(a, b) {
        let (i, j) = choose|i: int, j: int|
            0 <= i < a.len() && 0 <= j < b.len() && #[trigger] overlap(a[i], b[j]);
        assert(overlap(b[j], a[i]));
    }
    if any_overlap(b, a) {
        let (i, j) = choose|i: int, j: int|
            0 <= i < b.len() && 0 <= j < a.len() && #[trigger] overlap(b[i], a[j]);
        assert(overlap(a[j], b[i]));
    }
}

/// Whether one path is the other, or lies below it.
pub fn paths_overlap(left: &str, right: &str) -> (r: bool)
    ensures
        r == overlap(left@, right@),
{
    proof {
        crate::path::below_is_an_order(left@, right@);
        if crate::path::same(left@, right@) {
            assert(crate::path::names(left@).take(crate::path::names(left@).len() as int)
                =~= crate::path::names(left@));
        }
    }
    path_starts_with(left, right) || path_starts_with(right, left)
}

fn lists_overlap(a: &Vec<String>, b: &Vec<String>) -> (r: bool)
    ensures
        r == any_overlap(crate::text::texts(a@), crate::text::texts(b@)),
{
    let ghost x = crate::text::texts(a@);
    let ghost y = crate::text::texts(b@);
    let mut i: usize = 0;
    while i < a.len()
        invariant
            i <= a@.len(),
            x == crate::text::texts(a@),
            y == crate::text::texts(b@),
            forall|p: int, q: int|
                0 <= p < i && 0 <= q < y.len() ==> !#[trigger] overlap(x[p], y[q]),
        decreases a.len() - i,
    {
        let mut j: usize = 0;
        while j < b.len()
            invariant
                i < a@.len(),
                j <= b@.len(),
                x == crate::text::texts(a@),
                y == crate::text::texts(b@),
                forall|q: int| 0 <= q < j ==> !#[trigger] overlap(x[i as int], y[q]),
            decreases b.len() - j,
        {
            assert(x[i as int] == a@[i as int]@ && y[j as int] == b@[j as int]@);
            if paths_overlap(a[i].as_str(), b[j].as_str()) {
                assert(overlap(x[i as int], y[j as int]));
                return true;
            }
            j += 1;
        }
        i += 1;
    }
    false
}

impl ResourceBroker {
    /// The grants that have not been given back.
    pub closed spec fn grants(&self) -> Seq<Grant> {
        self.active@.map_values(|l: ResourceLease| Grant { id: l.id, demand: l.request@ })
    }

    /// What is in use.
    pub closed spec fn in_use(&self) -> Demand {
        self.used@
    }

    /// What there is.
    pub closed spec fn limits(&self) -> Demand {
        self.capacity@
    }

    /// The number of the last lease.
    pub closed spec fn last_lease(&self) -> u64 {
        self.next_lease
    }

    /// What is in use is the sum of the grants, with no domain that none of them names, and beyond
    /// no limit that stands. No two grants have one number, and no two of them clash.
    pub closed spec fn wf(&self) -> bool {
        &&& self.capacity.wf()
        &&& self.used.wf()
        &&& self.used.artifact_reads@.len() == 0
        &&& self.used.target_paths@.len() == 0
        &&& forall|i: int| 0 <= i < self.active@.len() ==> (#[trigger] self.active@[i]).wf()
        &&& forall|i: int|
            0 <= i < self.active@.len() ==> (#[trigger] self.active@[i]).id <= self.next_lease
        &&& forall|i: int, j: int|
            0 <= i < j < self.active@.len() ==> (#[trigger] self.active@[i]).id
                != (#[trigger] self.active@[j]).id
        &&& sums_up(self.used@, self.grants())
        &&& names_held_domains(self.used@, self.grants())
        &&& within_fixed(self.used@, self.capacity@)
        &&& at_peace(self.grants())
    }

    /// The number of the last lease.
    pub fn leases(&self) -> (r: u64)
        ensures
            r == self.last_lease(),
    {
        self.next_lease
    }

    pub fn new(capacity: ResourceCapacity) -> (r: ResourceBroker)
        requires
            capacity.wf(),
        ensures
            r.wf(),
            r.grants().len() == 0,
            r.in_use() == no_demand(),
            r.last_lease() == 0,
            r.limits() == capacity@,
    {
        let r = ResourceBroker {
            capacity,
            used: ResourceRequest::default(),
            next_lease: 0,
            active: Vec::new(),
        };
        proof {
            assert(r.grants() =~= Seq::empty());
            assert(r.used@.artifact_reads.len() == r.used.artifact_reads@.len());
            assert(r.used@.target_paths.len() == r.used.target_paths@.len());
            assert forall|d: Seq<char>| #[trigger] amount(r.used@.io_domains, d) == total(
                r.grants(),
                domain_of(d),
            ) by {}
        }
        r
    }
}

/// The grant names the domain.
pub open spec fn holds_domain(grants: Seq<Grant>, i: int, d: Seq<char>) -> bool {
    0 <= i < grants.len() && grants[i].demand.io_domains.contains_key(d)
}

/// Every domain that is in use is named by some grant.
pub open spec fn names_held_domains(used: Demand, grants: Seq<Grant>) -> bool {
    forall|d: Seq<char>| #[trigger]
        used.io_domains.contains_key(d) ==> exists|i: int| #[trigger] holds_domain(grants, i, d)
}

/// What is in use does not exceed what there is of the resources other than domains.
pub open spec fn within_fixed(used: Demand, limits: Demand) -> bool {
    &&& used.cpu_units <= limits.cpu_units
    &&& used.memory_bytes <= limits.memory_bytes
    &&& used.backend_processes <= limits.backend_processes
    &&& used.temporary_bytes <= limits.temporary_bytes
}

proof fn lemma_total_is_held(grants: Seq<Grant>, d: Seq<char>) -> (i: int)
    requires
        total(grants, domain_of(d)) > 0,
    ensures
        holds_domain(grants, i, d),
    decreases grants.len(),
{
    if amount(grants.last().demand.io_domains, d) > 0 {
        grants.len() - 1
    } else {
        let i = lemma_total_is_held(grants.drop_last(), d);
        assert(grants.drop_last()[i] == grants[i]);
        i
    }
}

/// `used` is the sum of the grants in every dimension.
pub open spec fn sums_up(used: Demand, grants: Seq<Grant>) -> bool {
    &&& used.cpu_units == total(grants, cpu_of())
    &&& used.memory_bytes == total(grants, memory_of())
    &&& used.backend_processes == total(grants, processes_of())
    &&& used.temporary_bytes == total(grants, temporary_of())
    &&& forall|d: Seq<char>| #[trigger] amount(used.io_domains, d) == total(grants, domain_of(d))
}

/// The demand does not exceed what there is.
pub open spec fn within(d: Demand, limits: Demand) -> bool {
    &&& d.cpu_units <= limits.cpu_units
    &&& d.memory_bytes <= limits.memory_bytes
    &&& d.backend_processes <= limits.backend_processes
    &&& d.temporary_bytes <= limits.temporary_bytes
    &&& forall|n: Seq<char>| #[trigger]
        d.io_domains.contains_key(n) ==> d.io_domains[n] <= amount(limits.io_domains, n)
}

/// `a` is at most what is left of `limit` beside `used`.
pub open spec fn leaves_room(a: int, used: int, limit: int) -> bool {
    a <= if limit > used {
        limit - used
    } else {
        0
    }
}

/// The demand fits beside what is in use.
pub open spec fn fits_beside(d: Demand, used: Demand, limits: Demand) -> bool {
    &&& leaves_room(d.cpu_units as int, used.cpu_units as int, limits.cpu_units as int)
    &&& leaves_room(d.memory_bytes as int, used.memory_bytes as int, limits.memory_bytes as int)
    &&& leaves_room(
        d.backend_processes as int,
        used.backend_processes as int,
        limits.backend_processes as int,
    )
    &&& leaves_room(
        d.temporary_bytes as int,
        used.temporary_bytes as int,
        limits.temporary_bytes as int,
    )
    &&& forall|n: Seq<char>| #[trigger]
        d.io_domains.contains_key(n) ==> leaves_room(
            d.io_domains[n] as int,
            amount(used.io_domains, n) as int,
            amount(limits.io_domains, n) as int,
        )
}

/// Domain by domain, the amounts of `m` and `r` together.
pub open spec fn domains_plus(m: Map<Seq<char>, u32>, r: Map<Seq<char>, u32>) -> Map<
    Seq<char>,
    u32,
> {
    Map::new(
        |d: Seq<char>| m.contains_key(d) || r.contains_key(d),
        |d: Seq<char>| (amount(m, d) + amount(r, d)) as u32,
    )
}

/// Domain by domain, what `m` has beyond `r`; a domain of `r` with nothing left is dropped.
pub open spec fn domains_minus(m: Map<Seq<char>, u32>, r: Map<Seq<char>, u32>) -> Map<
    Seq<char>,
    u32,
> {
    Map::new(
        |d: Seq<char>| m.contains_key(d) && !(r.contains_key(d) && m[d] == r[d]),
        |d: Seq<char>| (m[d] - amount(r, d)) as u32,
    )
}

/// What is in use with one more demand met.
pub open spec fn plus(used: Demand, d: Demand) -> Demand {
    Demand {
        cpu_units: (used.cpu_units + d.cpu_units) as u32,
        memory_bytes: (used.memory_bytes + d.memory_bytes) as u64,
        backend_processes: (used.backend_processes + d.backend_processes) as u32,
        temporary_bytes: (used.temporary_bytes + d.temporary_bytes) as u64,
        io_domains: domains_plus(used.io_domains, d.io_domains),
        ..used
    }
}

/// What is in use with one demand less.
pub open spec fn minus(used: Demand, d: Demand) -> Demand {
    Demand {
        cpu_units: (used.cpu_units - d.cpu_units) as u32,
        memory_bytes: (used.memory_bytes - d.memory_bytes) as u64,
        backend_processes: (used.backend_processes - d.backend_processes) as u32,
        temporary_bytes: (used.temporary_bytes - d.temporary_bytes) as u64,
        io_domains: domains_minus(used.io_domains, d.io_domains),
        ..used
    }
}

fn fits_capacity(request: &ResourceRequest, capacity: &ResourceCapacity) -> (r: bool)
    requires
        request.wf(),
        capacity.wf(),
    ensures
        r == within(request@, capacity@),
{
    if request.cpu_units > capacity.cpu_units || request.memory_bytes > capacity.memory_bytes
        || request.backend_processes > capacity.backend_processes || request.temporary_bytes
        > capacity.temporary_bytes {
        return false;
    }
    proof {
        request.io_domains.lemma_positions();
    }
    let mut i: usize = 0;
    while i < request.io_domains.len()
        invariant
            request.wf(),
            capacity.wf(),
            i <= request.io_domains.count(),
            forall|k: int|
                0 <= k < request.io_domains.count() ==> request.io_domains@.contains_key(
                    #[trigger] request.io_domains.name_at(k),
                ),
            forall|k: int|
                0 <= k < i ==> request.io_domains@[#[trigger] request.io_domains.name_at(k)]
                    <= amount(capacity.io_domains@, request.io_domains.name_at(k)),
        decreases request.io_domains.count() - i,
    {
        let (name, units) = request.io_domains.at(i);
        if units > capacity.io_domains.get(name.as_str()) {
            assert(request@.io_domains.contains_key(name@));
            return false;
        }
        i += 1;
    }
    true
}

fn fits_available(
    request: &ResourceRequest,
    used: &ResourceRequest,
    capacity: &ResourceCapacity,
) -> (r: bool)
    requires
        request.wf(),
        used.wf(),
        capacity.wf(),
    ensures
        r == fits_beside(request@, used@, capacity@),
{
    if request.cpu_units > capacity.cpu_units.saturating_sub(used.cpu_units) || request.memory_bytes
        > capacity.memory_bytes.saturating_sub(used.memory_bytes) || request.backend_processes
        > capacity.backend_processes.saturating_sub(used.backend_processes)
        || request.temporary_bytes > capacity.temporary_bytes.saturating_sub(used.temporary_bytes) {
        return false;
    }
    proof {
        request.io_domains.lemma_positions();
    }
    let mut i: usize = 0;
    while i < request.io_domains.len()
        invariant
            request.wf(),
            used.wf(),
            capacity.wf(),
            i <= request.io_domains.count(),
            forall|k: int|
                0 <= k < request.io_domains.count() ==> request.io_domains@.contains_key(
                    #[trigger] request.io_domains.name_at(k),
                ),
            forall|k: int|
                0 <= k < i ==> leaves_room(
                    request.io_domains@[#[trigger] request.io_domains.name_at(k)] as int,
                    amount(used.io_domains@, request.io_domains.name_at(k)) as int,
                    amount(capacity.io_domains@, request.io_domains.name_at(k)) as int,
                ),
        decreases request.io_domains.count() - i,
    {
        let (name, units) = request.io_domains.at(i);
        let left: u32 = capacity.io_domains.get(name.as_str()).saturating_sub(
            used.io_domains.get(name.as_str()),
        );
        if units > left {
            assert(request@.io_domains.contains_key(name@));
            return false;
        }
        i += 1;
    }
    true
}


/// `m` with the amounts of the first `n` domains of `r` added.
spec fn plus_first(m: Map<Seq<char>, u32>, r: &DomainUnits, n: int) -> Map<Seq<char>, u32>
    decreases n,
{
    if n <= 0 {
        m
    } else {
        let before = plus_first(m, r, n - 1);
        let d = r.name_at(n - 1);
        before.insert(d, (amount(before, d) + r@[d]) as u32)
    }
}

/// `m` with the amounts of the first `n` domains of `r` taken off.
spec fn minus_first(m: Map<Seq<char>, u32>, r: &DomainUnits, n: int) -> Map<Seq<char>, u32>
    decreases n,
{
    if n <= 0 {
        m
    } else {
        let before = minus_first(m, r, n - 1);
        let d = r.name_at(n - 1);
        if !before.contains_key(d) {
            before
        } else if before[d] == r@[d] {
            before.remove(d)
        } else {
            before.insert(d, (before[d] - r@[d]) as u32)
        }
    }
}

spec fn named_before(r: &DomainUnits, n: int, d: Seq<char>) -> bool {
    exists|k: int| 0 <= k < n && #[trigger] r.name_at(k) == d
}

proof fn lemma_plus_first(m: Map<Seq<char>, u32>, r: &DomainUnits, n: int, d: Seq<char>)
    requires
        r.wf(),
        0 <= n <= r.count(),
    ensures
        plus_first(m, r, n).contains_key(d) == (m.contains_key(d) || named_before(r, n, d)),
        amount(plus_first(m, r, n), d) == (if named_before(r, n, d) {
            (amount(m, d) + r@[d]) as u32
        } else {
            amount(m, d)
        }),
    decreases n,
{
    r.lemma_positions();
    if n > 0 {
        lemma_plus_first(m, r, n - 1, d);
        if r.name_at(n - 1) == d {
            assert(named_before(r, n, d));
            assert(!named_before(r, n - 1, d));
        } else {
            if named_before(r, n, d) {
                let k = choose|k: int| 0 <= k < n && #[trigger] r.name_at(k) == d;
                assert(0 <= k < n - 1);
                assert(named_before(r, n - 1, d));
            }
            if named_before(r, n - 1, d) {
                let k = choose|k: int| 0 <= k < n - 1 && #[trigger] r.name_at(k) == d;
                assert(0 <= k < n && r.name_at(k) == d);
            }
        }
    }
}

proof fn lemma_minus_first(m: Map<Seq<char>, u32>, r: &DomainUnits, n: int, d: Seq<char>)
    requires
        r.wf(),
        0 <= n <= r.count(),
        forall|x: Seq<char>| #[trigger] r@.contains_key(x) ==> r@[x] <= amount(m, x),
    ensures
        minus_first(m, r, n).contains_key(d) == (m.contains_key(d) && !(named_before(r, n, d) && m[d]
            == r@[d])),
        minus_first(m, r, n).contains_key(d) ==> minus_first(m, r, n)[d] == (if named_before(r, n, d) {
            (m[d] - r@[d]) as u32
        } else {
            m[d]
        }),
    decreases n,
{
    r.lemma_positions();
    if n > 0 {
        lemma_minus_first(m, r, n - 1, d);
        if r.name_at(n - 1) == d {
            assert(named_before(r, n, d));
            assert(!named_before(r, n - 1, d));
        } else {
            if named_before(r, n, d) {
                let k = choose|k: int| 0 <= k < n && #[trigger] r.name_at(k) == d;
                assert(0 <= k < n - 1);
                assert(named_before(r, n - 1, d));
            }
            if named_before(r, n - 1, d) {
                let k = choose|k: int| 0 <= k < n - 1 && #[trigger] r.name_at(k) == d;
                assert(0 <= k < n && r.name_at(k) == d);
            }
        }
    }
}

fn add_domains(used: &mut DomainUnits, request: &DomainUnits)
    requires
        old(used).wf(),
        request.wf(),
        forall|d: Seq<char>| #[trigger]
            request@.contains_key(d) ==> amount(old(used)@, d) + request@[d] <= u32::MAX,
    ensures
        final(used).wf(),
        final(used)@ == domains_plus(old(used)@, request@),
{
    let ghost m = used@;
    proof {
        request.lemma_positions();
    }
    let mut i: usize = 0;
    while i < request.len()
        invariant
            used.wf(),
            request.wf(),
            i <= request.count(),
            used@ == plus_first(m, request, i as int),
            forall|k: int|
                0 <= k < request.count() ==> request@.contains_key(#[trigger] request.name_at(k)),
            forall|k: int, j: int|
                0 <= k < j < request.count() ==> #[trigger] request.name_at(k)
                    != #[trigger] request.name_at(j),
            forall|d: Seq<char>| #[trigger]
                request@.contains_key(d) ==> amount(m, d) + request@[d] <= u32::MAX,
        decreases request.count() - i,
    {
        let (name, units) = request.at(i);
        proof {
            lemma_plus_first(m, request, i as int, name@);
            assert(!named_before(request, i as int, name@));
        }
        let held: u32 = used.get(name.as_str());
        used.set(name.as_str(), held + units);
        i += 1;
    }
    proof {
        assert forall|d: Seq<char>| #[trigger] used@.contains_key(d) == domains_plus(
            m,
            request@,
        ).contains_key(d) by {
            lemma_plus_first(m, request, i as int, d);
            if request@.contains_key(d) {
                let k = choose|k: int| 0 <= k < request.count() && #[trigger] request.name_at(k) == d;
                assert(named_before(request, i as int, d));
            }
        }
        assert forall|d: Seq<char>| #[trigger] used@.contains_key(d) implies used@[d]
            == domains_plus(m, request@)[d] by {
            lemma_plus_first(m, request, i as int, d);
            if request@.contains_key(d) {
                let k = choose|k: int| 0 <= k < request.count() && #[trigger] request.name_at(k) == d;
                assert(named_before(request, i as int, d));
            }
        }
        assert(used@ =~= domains_plus(m, request@));
    }
}

fn subtract_domains(used: &mut DomainUnits, request: &DomainUnits)
    requires
        old(used).wf(),
        request.wf(),
        forall|d: Seq<char>| #[trigger]
            request@.contains_key(d) ==> request@[d] <= amount(old(used)@, d),
    ensures
        final(used).wf(),
        final(used)@ == domains_minus(old(used)@, request@),
{
    let ghost m = used@;
    proof {
        request.lemma_positions();
    }
    let mut i: usize = 0;
    while i < request.len()
        invariant
            used.wf(),
            request.wf(),
            i <= request.count(),
            used@ == minus_first(m, request, i as int),
            forall|k: int|
                0 <= k < request.count() ==> request@.contains_key(#[trigger] request.name_at(k)),
            forall|k: int, j: int|
                0 <= k < j < request.count() ==> #[trigger] request.name_at(k)
                    != #[trigger] request.name_at(j),
            forall|d: Seq<char>| #[trigger]
                request@.contains_key(d) ==> request@[d] <= amount(m, d),
        decreases request.count() - i,
    {
        let (name, units) = request.at(i);
        proof {
            lemma_minus_first(m, request, i as int, name@);
            assert(!named_before(request, i as int, name@));
        }
        if used.has(name.as_str()) {
            let held: u32 = used.get(name.as_str());
            if held == units {
                used.remove(name.as_str());
            } else {
                used.set(name.as_str(), held - units);
            }
        }
        i += 1;
    }
    proof {
        assert forall|d: Seq<char>| #[trigger] used@.contains_key(d) == domains_minus(
            m,
            request@,
        ).contains_key(d) by {
            lemma_minus_first(m, request, i as int, d);
            if request@.contains_key(d) {
                let k = choose|k: int| 0 <= k < request.count() && #[trigger] request.name_at(k) == d;
                assert(named_before(request, i as int, d));
            }
        }
        assert forall|d: Seq<char>| #[trigger] used@.contains_key(d) implies used@[d]
            == domains_minus(m, request@)[d] by {
            lemma_minus_first(m, request, i as int, d);
            if request@.contains_key(d) {
                let k = choose|k: int| 0 <= k < request.count() && #[trigger] request.name_at(k) == d;
                assert(named_before(request, i as int, d));
            }
        }
        assert(used@ =~= domains_minus(m, request@));
    }
}

fn add_request(used: &mut ResourceRequest, request: &ResourceRequest)
    requires
        old(used).wf(),
        request.wf(),
        old(used).cpu_units + request.cpu_units <= u32::MAX,
        old(used).memory_bytes + request.memory_bytes <= u64::MAX,
        old(used).backend_processes + request.backend_processes <= u32::MAX,
        old(used).temporary_bytes + request.temporary_bytes <= u64::MAX,
        forall|d: Seq<char>| #[trigger]
            request.io_domains@.contains_key(d) ==> amount(old(used).io_domains@, d)
                + request.io_domains@[d] <= u32::MAX,
    ensures
        final(used).wf(),
        final(used)@ == plus(old(used)@, request@),
        final(used).artifact_reads == old(used).artifact_reads,
        final(used).target_paths == old(used).target_paths,
{
    used.cpu_units += request.cpu_units;
    used.memory_bytes += request.memory_bytes;
    used.backend_processes += request.backend_processes;
    used.temporary_bytes += request.temporary_bytes;
    add_domains(&mut used.io_domains, &request.io_domains);
}

fn subtract_request(used: &mut ResourceRequest, request: &ResourceRequest)
    requires
        old(used).wf(),
        request.wf(),
        request.cpu_units <= old(used).cpu_units,
        request.memory_bytes <= old(used).memory_bytes,
        request.backend_processes <= old(used).backend_processes,
        request.temporary_bytes <= old(used).temporary_bytes,
        forall|d: Seq<char>| #[trigger]
            request.io_domains@.contains_key(d) ==> request.io_domains@[d] <= amount(
                old(used).io_domains@,
                d,
            ),
    ensures
        final(used).wf(),
        final(used)@ == minus(old(used)@, request@),
        final(used).artifact_reads == old(used).artifact_reads,
        final(used).target_paths == old(used).target_paths,
{
    used.cpu_units -= request.cpu_units;
    used.memory_bytes -= request.memory_bytes;
    used.backend_processes -= request.backend_processes;
    used.temporary_bytes -= request.temporary_bytes;
    subtract_domains(&mut used.io_domains, &request.io_domains);
}

/// The demand does not clash with any grant.
pub open spec fn free_of(grants: Seq<Grant>, d: Demand) -> bool {
    forall|i: int| 0 <= i < grants.len() ==> !conflict(d, (#[trigger] grants[i]).demand)
}

/// The demand can be met now.
pub open spec fn admissible(broker: ResourceBroker, d: Demand) -> bool {
    &&& within(d, broker.limits())
    &&& free_of(broker.grants(), d)
    &&& fits_beside(d, broker.in_use(), broker.limits())
}

/// The broker met the demand and gave the lease for it.
pub open spec fn granted(
    before: ResourceBroker,
    after: ResourceBroker,
    d: Demand,
    lease: ResourceLease,
) -> bool {
    &&& admissible(before, d)
    &&& lease.wf()
    &&& lease.number() == before.last_lease() + 1
    &&& lease.demand() == d
    &&& after.limits() == before.limits()
    &&& after.last_lease() == before.last_lease() + 1
    &&& after.in_use() == plus(before.in_use(), d)
    &&& after.grants() == before.grants().push(Grant { id: lease.number(), demand: d })
}

/// The broker took the lease back. One that is not held any more changes nothing.
pub open spec fn taken_back(before: ResourceBroker, after: ResourceBroker, lease: ResourceLease) -> bool {
    &&& after.limits() == before.limits()
    &&& after.last_lease() == before.last_lease()
    &&& forall|k: int|
        0 <= k < before.grants().len() && (#[trigger] before.grants()[k]).id == lease.number() ==> {
            &&& after.grants() == before.grants().remove(k)
            &&& after.in_use() == minus(before.in_use(), lease.demand())
        }
    &&& (forall|k: int|
        0 <= k < before.grants().len() ==> (#[trigger] before.grants()[k]).id != lease.number())
        ==> after == before
}

/// Every grant asks for something of each domain that it names.
pub open spec fn asks_for_domains(grants: Seq<Grant>) -> bool {
    forall|i: int, d: Seq<char>| #[trigger]
        holds_domain(grants, i, d) ==> grants[i].demand.io_domains[d] > 0
}

/// The lease is one that the broker has granted and not taken back, or one that it does not know.
pub open spec fn is_genuine(broker: ResourceBroker, lease: ResourceLease) -> bool {
    forall|i: int|
        0 <= i < broker.grants().len() && (#[trigger] broker.grants()[i]).id == lease.number()
            ==> broker.grants()[i].demand == lease.demand()
}

impl ResourceBroker {
    fn has_conflict(&self, request: &ResourceRequest) -> (r: bool)
        requires
            self.wf(),
            request.wf(),
        ensures
            r == !free_of(self.grants(), request@),
    {
        let mut i: usize = 0;
        while i < self.active.len()
            invariant
                self.wf(),
                i <= self.active@.len(),
                forall|k: int|
                    0 <= k < i ==> !conflict(request@, (#[trigger] self.grants()[k]).demand),
            decreases self.active.len() - i,
        {
            let held = &self.active[i].request;
            assert(self.grants()[i as int].demand == held@);
            if lists_overlap(&request.target_paths, &held.artifact_reads) || lists_overlap(
                &request.target_paths,
                &held.target_paths,
            ) || lists_overlap(&request.artifact_reads, &held.target_paths) {
                assert(conflict(request@, self.grants()[i as int].demand));
                return true;
            }
            i += 1;
        }
        false
    }

    /// Whether a request would be admitted now.
    pub fn admits(&self, request: &ResourceRequest) -> (r: bool)
        requires
            self.wf(),
            request.wf(),
        ensures
            r == admissible(*self, request@),
    {
        fits_capacity(request, &self.capacity) && !self.has_conflict(request) && fits_available(
            request,
            &self.used,
            &self.capacity,
        )
    }

    /// Grants everything that is asked for, or nothing.
    pub fn try_acquire(&mut self, request: &ResourceRequest) -> (r: Result<
        ResourceLease,
        AdmissionFailure,
    >)
        requires
            old(self).wf(),
            request.wf(),
            old(self).last_lease() < u64::MAX,
        ensures
            final(self).wf(),
            final(self).limits() == old(self).limits(),
            match r {
                Ok(lease) => granted(*old(self), *final(self), request@, lease),
                Err(AdmissionFailure::ExceedsCapacity) => {
                    &&& !within(request@, old(self).limits())
                    &&& *final(self) == *old(self)
                },
                Err(AdmissionFailure::TemporarilyUnavailable) => {
                    &&& within(request@, old(self).limits())
                    &&& !admissible(*old(self), request@)
                    &&& *final(self) == *old(self)
                },
            },
    {
        if !fits_capacity(request, &self.capacity) {
            return Err(AdmissionFailure::ExceedsCapacity);
        }
        if self.has_conflict(request) || !fits_available(request, &self.used, &self.capacity) {
            return Err(AdmissionFailure::TemporarilyUnavailable);
        }
        let ghost before = *self;
        proof {
            assert forall|d: Seq<char>| #[trigger]
                request.io_domains@.contains_key(d) implies amount(self.used.io_domains@, d)
                + request.io_domains@[d] <= u32::MAX by {
                assert(leaves_room(
                    request.io_domains@[d] as int,
                    amount(self.used.io_domains@, d) as int,
                    amount(self.capacity.io_domains@, d) as int,
                ));
            }
        }
        add_request(&mut self.used, request);
        self.next_lease += 1;
        let id: u64 = self.next_lease;
        let held = ResourceLease { id, request: request.copy() };
        let ghost grant = Grant { id, demand: request@ };
        self.active.push(held);
        proof {
            assert(self.grants() =~= before.grants().push(grant));
            assert(self.grants().drop_last() =~= before.grants());
            assert forall|d: Seq<char>| #[trigger] amount(self.used@.io_domains, d) == total(
                self.grants(),
                domain_of(d),
            ) by {
                assert(amount(before.used@.io_domains, d) == total(before.grants(), domain_of(d)));
                if request.io_domains@.contains_key(d) {
                    assert(leaves_room(
                        request.io_domains@[d] as int,
                        amount(before.used.io_domains@, d) as int,
                        amount(before.capacity.io_domains@, d) as int,
                    ));
                }
            }
            assert forall|d: Seq<char>| #[trigger] self.used@.io_domains.contains_key(d) implies (exists|
                i: int,
            | #[trigger] holds_domain(self.grants(), i, d)) by {
                if request.io_domains@.contains_key(d) {
                    assert(holds_domain(self.grants(), before.grants().len() as int, d));
                } else {
                    assert(before.used@.io_domains.contains_key(d));
                    let i = choose|i: int| #[trigger] holds_domain(before.grants(), i, d);
                    assert(self.grants()[i] == before.grants()[i]);
                    assert(holds_domain(self.grants(), i, d));
                }
            }
            assert forall|i: int, j: int| 0 <= i < j < self.active@.len() implies (
            #[trigger] self.active@[i]).id != (#[trigger] self.active@[j]).id by {
                assert(self.active@[i] == before.active@[i]);
                if j < before.active@.len() {
                    assert(self.active@[j] == before.active@[j]);
                }
            }
            assert forall|i: int| 0 <= i < self.active@.len() implies (
            #[trigger] self.active@[i]).id <= self.next_lease by {
                if i < before.active@.len() {
                    assert(self.active@[i] == before.active@[i]);
                }
            }
            assert forall|i: int| 0 <= i < self.active@.len() implies (
            #[trigger] self.active@[i]).wf() by {
                if i < before.active@.len() {
                    assert(self.active@[i] == before.active@[i]);
                }
            }
        }
        Ok(ResourceLease { id, request: request.copy() })
    }

    /// Takes a lease back. One that is not held any more changes nothing.
    pub fn release(&mut self, lease: ResourceLease)
        requires
            old(self).wf(),
            lease.wf(),
            is_genuine(*old(self), lease),
        ensures
            final(self).wf(),
            taken_back(*old(self), *final(self), lease),
    {
        let ghost before = *self;
        let mut i: usize = 0;
        while i < self.active.len()
            invariant
                i <= self.active@.len(),
                *self == before,
                forall|k: int| 0 <= k < i ==> (#[trigger] self.active@[k]).id != lease.id,
            ensures
                i < self.active@.len() ==> self.active@[i as int].id == lease.id,
            decreases self.active.len() - i,
        {
            if self.active[i].id == lease.id {
                break ;
            }
            i += 1;
        }
        if i < self.active.len() {
            proof {
                assert(before.grants()[i as int].id == lease.id);
                assert(before.grants()[i as int].demand == lease.request@);
                let g = before.grants();
                lemma_total_covers(g, i as int, cpu_of());
                lemma_total_covers(g, i as int, memory_of());
                lemma_total_covers(g, i as int, processes_of());
                lemma_total_covers(g, i as int, temporary_of());
                assert forall|d: Seq<char>| #[trigger]
                    lease.request.io_domains@.contains_key(d) implies lease.request.io_domains@[d]
                    <= amount(self.used.io_domains@, d) by {
                    lemma_total_covers(g, i as int, domain_of(d));
                    assert(amount(self.used@.io_domains, d) == total(g, domain_of(d)));
                }
            }
            let _ = self.active.remove(i);
            subtract_request(&mut self.used, &lease.request);
            proof {
                let g = before.grants();
                assert(self.grants() =~= g.remove(i as int));
                lemma_total_remove(g, i as int, cpu_of());
                lemma_total_remove(g, i as int, memory_of());
                lemma_total_remove(g, i as int, processes_of());
                lemma_total_remove(g, i as int, temporary_of());
                assert forall|d: Seq<char>| #[trigger] amount(self.used@.io_domains, d) == total(
                    self.grants(),
                    domain_of(d),
                ) by {
                    lemma_total_remove(g, i as int, domain_of(d));
                    lemma_total_covers(g, i as int, domain_of(d));
                    assert(amount(before.used@.io_domains, d) == total(g, domain_of(d)));
                }
                assert forall|d: Seq<char>| #[trigger]
                    self.used@.io_domains.contains_key(d) implies (exists|k: int| #[trigger]
                    holds_domain(self.grants(), k, d)) by {
                    let used = before.used@.io_domains;
                    assert(used.contains_key(d));
                    if lease.request.io_domains@.contains_key(d) {
                        lemma_total_remove(g, i as int, domain_of(d));
                        lemma_total_covers(g, i as int, domain_of(d));
                        assert(amount(before.used@.io_domains, d) == total(g, domain_of(d)));
                        let k = lemma_total_is_held(self.grants(), d);
                        assert(holds_domain(self.grants(), k, d));
                    } else {
                        let k = choose|k: int| #[trigger] holds_domain(g, k, d);
                        let at = if k < i {
                            k
                        } else {
                            k - 1
                        };
                        assert(self.grants()[at] == g[k]);
                        assert(holds_domain(self.grants(), at, d));
                    }
                }
                assert forall|a: int| 0 <= a < self.active@.len() implies #[trigger] self.active@[a]
                    == before.active@[if a < i {
                    a
                } else {
                    a + 1
                }] by {}
                assert forall|k: int| 0 <= k < g.len() && (#[trigger] g[k]).id == lease.id implies k
                    == i by {
                    assert(before.active@[k].id == lease.id);
                    assert(before.active@[i as int].id == lease.id);
                }
            }
        } else {
            proof {
                assert forall|k: int| 0 <= k < before.grants().len() implies (
                #[trigger] before.grants()[k]).id != lease.id by {
                    assert(before.grants()[k].id == before.active@[k].id);
                }
            }
        }
    }

    /// What is in use.
    pub fn used(&self) -> (r: &ResourceRequest)
        ensures
            r@ == self.in_use(),
    {
        &self.used
    }

    /// Sets how much there is of one domain.
    pub fn set_io_domain_capacity(&mut self, domain: String, units: u32)
        requires
            old(self).wf(),
        ensures
            final(self).wf(),
            final(self).grants() == old(self).grants(),
            final(self).in_use() == old(self).in_use(),
            final(self).last_lease() == old(self).last_lease(),
            final(self).limits() == (Demand {
                io_domains: old(self).limits().io_domains.insert(domain@, units),
                ..old(self).limits()
            }),
    {
        self.capacity.io_domains.set(domain.as_str(), units);
    }
}

/// What is in use is the sum of what was granted and not given back, in every dimension, and
/// no two of these grants have one number.
pub proof fn use_is_the_sum_of_grants(broker: ResourceBroker)
    requires
        broker.wf(),
    ensures
        sums_up(broker.in_use(), broker.grants()),
        forall|i: int|
            0 <= i < broker.grants().len() ==> (#[trigger] broker.grants()[i]).id
                <= broker.last_lease(),
        forall|i: int, j: int|
            0 <= i < j < broker.grants().len() ==> (#[trigger] broker.grants()[i]).id != (
            #[trigger] broker.grants()[j]).id,
        broker.in_use().artifact_reads.len() == 0,
        broker.in_use().target_paths.len() == 0,
{
}

/// What is in use never exceeds what there is of processors, memory, processes and temporary
/// space.
pub proof fn use_stays_within_limits(broker: ResourceBroker)
    requires
        broker.wf(),
    ensures
        broker.in_use().cpu_units <= broker.limits().cpu_units,
        broker.in_use().memory_bytes <= broker.limits().memory_bytes,
        broker.in_use().backend_processes <= broker.limits().backend_processes,
        broker.in_use().temporary_bytes <= broker.limits().temporary_bytes,
{
}

/// A broker whose leases were all given back uses nothing at all, and names no domain.
pub proof fn idle_broker_uses_nothing(broker: ResourceBroker)
    requires
        broker.wf(),
        broker.grants().len() == 0,
    ensures
        broker.in_use() == no_demand(),
{
    assert forall|d: Seq<char>| !#[trigger] broker.in_use().io_domains.contains_key(d) by {
        if broker.in_use().io_domains.contains_key(d) {
            let i = choose|i: int| #[trigger] holds_domain(broker.grants(), i, d);
        }
    }
    assert(broker.in_use().io_domains =~= Map::empty());
    assert(broker.in_use() =~= no_demand());
}

/// Where every lease asks for something of each domain that it names, every domain in use is in
/// use with a positive amount.
pub proof fn domains_in_use_are_positive(broker: ResourceBroker, d: Seq<char>)
    requires
        broker.wf(),
        asks_for_domains(broker.grants()),
        broker.in_use().io_domains.contains_key(d),
    ensures
        broker.in_use().io_domains[d] > 0,
{
    let i = choose|i: int| #[trigger] holds_domain(broker.grants(), i, d);
    lemma_total_covers(broker.grants(), i, domain_of(d));
    assert(amount(broker.in_use().io_domains, d) == total(broker.grants(), domain_of(d)));
}

/// A lease that is taken and given back leaves the broker as it was: the same amounts, the same
/// domains, the same grants, and the same work can be admitted. The other leases ask for something
/// of each domain that they name.
pub proof fn lease_gives_back_what_it_took(
    before: ResourceBroker,
    during: ResourceBroker,
    after: ResourceBroker,
    d: Demand,
    lease: ResourceLease,
)
    requires
        before.wf(),
        asks_for_domains(before.grants()),
        granted(before, during, d, lease),
        taken_back(during, after, lease),
    ensures
        after.in_use() == before.in_use(),
        after.grants() == before.grants(),
        after.limits() == before.limits(),
        forall|wanted: Demand| #[trigger]
            admissible(after, wanted) == admissible(before, wanted),
{
    let n = before.grants().len() as int;
    assert(during.grants()[n].id == lease.number());
    assert(during.grants().remove(n) =~= before.grants());
    assert forall|x: Seq<char>| #[trigger] before.in_use().io_domains.contains_key(x) implies before.in_use().io_domains[x]
        > 0 by {
        domains_in_use_are_positive(before, x);
    }
    release_restores(before.in_use(), d, before.limits());
}

/// What is in use never exceeds what there is through an admission: where it did not before, it
/// does not afterwards.
pub proof fn admission_keeps_within(broker: ResourceBroker, d: Demand)
    requires
        admissible(broker, d),
        within(broker.in_use(), broker.limits()),
    ensures
        within(plus(broker.in_use(), d), broker.limits()),
{
    let used = broker.in_use();
    let limits = broker.limits();
    assert forall|n: Seq<char>| #[trigger] plus(used, d).io_domains.contains_key(n) implies plus(
        used,
        d,
    ).io_domains[n] <= amount(limits.io_domains, n) by {
        assert(used.io_domains.contains_key(n) ==> used.io_domains[n] <= amount(
            limits.io_domains,
            n,
        ));
        assert(d.io_domains.contains_key(n) ==> leaves_room(
            d.io_domains[n] as int,
            amount(used.io_domains, n) as int,
            amount(limits.io_domains, n) as int,
        ));
    }
}

/// Giving back what was just granted restores every amount; the named domains too, unless one of
/// them was in use with an amount of zero.
pub proof fn release_restores(used: Demand, d: Demand, limits: Demand)
    requires
        fits_beside(d, used, limits),
    ensures
        minus(plus(used, d), d).cpu_units == used.cpu_units,
        minus(plus(used, d), d).memory_bytes == used.memory_bytes,
        minus(plus(used, d), d).backend_processes == used.backend_processes,
        minus(plus(used, d), d).temporary_bytes == used.temporary_bytes,
        forall|n: Seq<char>| #[trigger]
            amount(minus(plus(used, d), d).io_domains, n) == amount(used.io_domains, n),
        (forall|n: Seq<char>| #[trigger] used.io_domains.contains_key(n) ==> used.io_domains[n] > 0)
            ==> minus(plus(used, d), d) == used,
{
    let after = minus(plus(used, d), d);
    assert forall|n: Seq<char>| #[trigger] amount(after.io_domains, n) == amount(
        used.io_domains,
        n,
    ) by {
        if d.io_domains.contains_key(n) {
            assert(leaves_room(
                d.io_domains[n] as int,
                amount(used.io_domains, n) as int,
                amount(limits.io_domains, n) as int,
            ));
        }
    }
    if forall|n: Seq<char>| #[trigger] used.io_domains.contains_key(n) ==> used.io_domains[n] > 0 {
        assert forall|n: Seq<char>| #[trigger] after.io_domains.contains_key(n)
            == used.io_domains.contains_key(n) by {
            assert(amount(after.io_domains, n) == amount(used.io_domains, n));
            if d.io_domains.contains_key(n) {
                assert(leaves_room(
                    d.io_domains[n] as int,
                    amount(used.io_domains, n) as int,
                    amount(limits.io_domains, n) as int,
                ));
            }
        }
        assert forall|n: Seq<char>| #[trigger] after.io_domains.contains_key(n) implies after.io_domains[n]
            == used.io_domains[n] by {
            assert(amount(after.io_domains, n) == amount(used.io_domains, n));
        }
        assert(after.io_domains =~= used.io_domains);
        assert(after =~= used);
    }
}

/// While a write is granted, no work that reads or writes its target, or above or below it, is
/// admitted.
pub proof fn writes_exclude(broker: ResourceBroker, d: Demand, k: int)
    requires
        0 <= k < broker.grants().len(),
        any_overlap(d.artifact_reads, broker.grants()[k].demand.target_paths) || any_overlap(
            d.target_paths,
            broker.grants()[k].demand.target_paths,
        ),
    ensures
        !admissible(broker, d),
{
    assert(conflict(d, broker.grants()[k].demand));
}

/// While a read is granted, no work that writes what is read, or above or below it, is admitted.
pub proof fn reads_exclude_writes(broker: ResourceBroker, d: Demand, k: int)
    requires
        0 <= k < broker.grants().len(),
        any_overlap(d.target_paths, broker.grants()[k].demand.artifact_reads),
    ensures
        !admissible(broker, d),
{
    assert(conflict(d, broker.grants()[k].demand));
}

/// At no time does one grant write what another one reads or writes.
pub proof fn grants_never_clash(broker: ResourceBroker, i: int, j: int)
    requires
        broker.wf(),
        0 <= i < broker.grants().len(),
        0 <= j < broker.grants().len(),
        i != j,
    ensures
        !conflict(broker.grants()[i].demand, broker.grants()[j].demand),
{
    lemma_conflict_is_mutual(broker.grants()[i].demand, broker.grants()[j].demand);
    if i < j {
        assert(!conflict(broker.grants()[j].demand, broker.grants()[i].demand));
    } else {
        assert(!conflict(broker.grants()[i].demand, broker.grants()[j].demand));
    }
}

/// Whether two demands clash does not depend on which of them came first. Those that only read
/// never clash, and one that writes clashes with what uses the same path.
pub proof fn clashes_are_mutual(a: Demand, b: Demand)
    ensures
        conflict(a, b) <==> conflict(b, a),
        a.target_paths.len() == 0 && b.target_paths.len() == 0 ==> !conflict(a, b),
        a.target_paths.len() > 0 && b.artifact_reads.contains(a.target_paths[0]) ==> conflict(a, b),
        a.target_paths.len() > 0 && b.target_paths.contains(a.target_paths[0]) ==> conflict(a, b),
{
    lemma_overlap_mutual(a.target_paths, b.artifact_reads);
    lemma_overlap_mutual(a.target_paths, b.target_paths);
    lemma_overlap_mutual(a.artifact_reads, b.target_paths);
    if a.target_paths.len() > 0 && b.artifact_reads.contains(a.target_paths[0]) {
        let j = choose|j: int|
            0 <= j < b.artifact_reads.len() && b.artifact_reads[j] == a.target_paths[0];
        assert(overlap(a.target_paths[0], b.artifact_reads[j]));
    }
    if a.target_paths.len() > 0 && b.target_paths.contains(a.target_paths[0]) {
        let j = choose|j: int| 0 <= j < b.target_paths.len() && b.target_paths[j]
            == a.target_paths[0];
        assert(overlap(a.target_paths[0], b.target_paths[j]));
    }
}

proof fn lemma_overlap_mutual(a: Seq<Seq<char>>, b: Seq<Seq<char>>)
    ensures
        any_overlap(a, b) <==> any_overlap(b, a),
{
    if any_overlap(a, b) {
        let (i, j) = choose|i: int, j: int|
            0 <= i < a.len() && 0 <= j < b.len() && #[trigger] overlap(a[i], b[j]);
        assert(overlap(b[j], a[i]));
    }
    if any_overlap(b, a) {
        let (i, j) = choose|i: int, j: int|
            0 <= i < b.len() && 0 <= j < a.len() && #[trigger] overlap(b[i], a[j]);
        assert(overlap(a[j], b[i]));
    }
}

/// An amount finds room exactly where, together with what is in use, it does not exceed the limit.
/// Nothing at all always finds room.
pub proof fn room_is_what_is_left(a: nat, used: nat, limit: nat)
    ensures
        leaves_room(0, used as int, limit as int),
        a > 0 ==> (leaves_room(a as int, used as int, limit as int) <==> a + used <= limit),
{
}

/// A demand within the limits is met at once where nothing is in use and nothing is granted.
pub proof fn idle_broker_meets_what_is_within(d: Demand, limits: Demand)
    ensures
        fits_beside(d, no_demand(), limits) <==> within(d, limits),
        free_of(Seq::empty(), d),
{
    if within(d, limits) {
        assert forall|n: Seq<char>| #[trigger] d.io_domains.contains_key(n) implies leaves_room(
            d.io_domains[n] as int,
            amount(no_demand().io_domains, n) as int,
            amount(limits.io_domains, n) as int,
        ) by {
            assert(d.io_domains[n] <= amount(limits.io_domains, n));
        }
    }
    if fits_beside(d, no_demand(), limits) {
        assert forall|n: Seq<char>| #[trigger] d.io_domains.contains_key(n) implies d.io_domains[n]
            <= amount(limits.io_domains, n) by {
            assert(leaves_room(
                d.io_domains[n] as int,
                amount(no_demand().io_domains, n) as int,
                amount(limits.io_domains, n) as int,
            ));
        }
    }
}

} // verus!
