//! The passwords that are kept, and what is known of their success.

use vstd::prelude::*;
use crate::order::{keep_rows, limit_places, rank, Ranked};
use crate::task_execution::StoreError;
use crate::text::{is_text_before, own, same_text};

verus! {

/// A password that is kept.
#[derive(Debug, PartialEq, Eq)]
pub struct PasswordRecord {
    pub id: i64,
    pub value: String,
    pub source: String,
    pub pinned: bool,
    pub disabled: bool,
    pub success_count: i64,
    pub failure_count: i64,
    pub last_success_at: Option<String>,
    pub last_failure_at: Option<String>,
}

/// A password to keep.
#[derive(Debug)]
pub struct NewPassword {
    pub value: String,
    pub source: String,
    pub pinned: bool,
}

/// What is known of a password with one kind of archive.
#[derive(Debug, PartialEq, Eq)]
pub struct PasswordMatch {
    pub id: i64,
    pub password_id: i64,
    pub archive_format: Option<String>,
    pub path_pattern: Option<String>,
    pub filename_pattern: Option<String>,
    pub success_count: i64,
    pub failure_count: i64,
    pub last_success_at: Option<String>,
    pub last_failure_at: Option<String>,
}

/// The text, or an empty one where there is none.
pub open spec fn or_empty(s: Option<Seq<char>>) -> Seq<char> {
    match s {
        Some(v) => v,
        None => Seq::empty(),
    }
}

fn text_or_empty(s: &Option<String>) -> (r: &str)
    ensures
        r@ == or_empty(crate::text::opt_text(*s)),
{
    match s {
        Some(v) => v.as_str(),
        None => {
            proof {
                reveal_strlit("");
                assert(""@ =~= Seq::<char>::empty());
            }
            ""
        },
    }
}

fn str_or_empty<'a>(s: Option<&'a str>) -> (r: &'a str)
    ensures
        r@ == or_empty(crate::text::opt_str(s)),
{
    match s {
        Some(v) => v,
        None => {
            proof {
                reveal_strlit("");
                assert(""@ =~= Seq::<char>::empty());
            }
            ""
        },
    }
}

/// A pinned password goes first, then the one that fitted more often, then the one that fitted
/// last, then the one that failed less often, then the older one.
impl Ranked for PasswordRecord {
    open spec fn precedes(&self, other: &PasswordRecord) -> bool {
        let mine = or_empty(crate::text::opt_text(self.last_success_at));
        let theirs = or_empty(crate::text::opt_text(other.last_success_at));
        (self.pinned && !other.pinned) || (self.pinned == other.pinned && (self.success_count
            > other.success_count || (self.success_count == other.success_count && (
        crate::text::text_before(theirs, mine) || (mine == theirs && (self.failure_count
            < other.failure_count || (self.failure_count == other.failure_count && self.id
            < other.id)))))))
    }

    fn comes_before(&self, other: &PasswordRecord) -> (r: bool) {
        let mine = text_or_empty(&self.last_success_at);
        let theirs = text_or_empty(&other.last_success_at);
        (self.pinned && !other.pinned) || (self.pinned == other.pinned && (self.success_count
            > other.success_count || (self.success_count == other.success_count && (
        is_text_before(theirs, mine) || (same_text(mine, theirs) && (self.failure_count
            < other.failure_count || (self.failure_count == other.failure_count && self.id
            < other.id)))))))
    }

    proof fn order_is_strict(a: &PasswordRecord, b: &PasswordRecord, c: &PasswordRecord) {
        let x = or_empty(crate::text::opt_text(a.last_success_at));
        let y = or_empty(crate::text::opt_text(b.last_success_at));
        let z = or_empty(crate::text::opt_text(c.last_success_at));
        crate::text::texts_are_in_line(x, x, x);
        crate::text::texts_are_in_line(z, y, x);
        crate::text::texts_are_in_line(y, z, x);
        crate::text::texts_are_in_line(y, x, z);
        crate::text::texts_are_in_line(z, x, y);
    }
}

/// The kind that fitted more often goes first, then the older one.
impl Ranked for PasswordMatch {
    open spec fn precedes(&self, other: &PasswordMatch) -> bool {
        self.success_count > other.success_count || (self.success_count == other.success_count
            && self.id < other.id)
    }

    fn comes_before(&self, other: &PasswordMatch) -> (r: bool) {
        self.success_count > other.success_count || (self.success_count == other.success_count
            && self.id < other.id)
    }

    proof fn order_is_strict(a: &PasswordMatch, b: &PasswordMatch, c: &PasswordMatch) {
    }
}

/// The passwords, and what is known of them.
#[derive(Debug)]
pub struct PasswordRepository {
    pub rows: Vec<PasswordRecord>,
    pub last_id: i64,
    pub matches: Vec<PasswordMatch>,
    pub last_match_id: i64,
}

impl PasswordRecord {
    /// The row of a password that was not kept before.
    pub open spec fn first(id: i64, new: NewPassword) -> PasswordRecord {
        PasswordRecord {
            id,
            value: new.value,
            source: new.source,
            pinned: new.pinned,
            disabled: false,
            success_count: 0,
            failure_count: 0,
            last_success_at: None,
            last_failure_at: None,
        }
    }

    /// The row of a password that is kept once more: a pin stays, and it is in use again.
    pub open spec fn again(self, new: NewPassword) -> PasswordRecord {
        PasswordRecord {
            source: new.source,
            pinned: self.pinned || new.pinned,
            disabled: false,
            ..self
        }
    }
}

/// The match is of this password, format and name; one that is not given counts as empty.
pub open spec fn is_match(
    m: PasswordMatch,
    password_id: i64,
    format: Option<Seq<char>>,
    pattern: Option<Seq<char>>,
) -> bool {
    &&& m.password_id == password_id
    &&& or_empty(crate::text::opt_text(m.archive_format)) == or_empty(format)
    &&& or_empty(crate::text::opt_text(m.filename_pattern)) == or_empty(pattern)
}

/// These are the rows of the passwords that are in use.
pub open spec fn in_use(rows: Seq<PasswordRecord>) -> Seq<bool> {
    rows.map_values(|p: PasswordRecord| !p.disabled)
}

/// These are the rows of this password.
pub open spec fn of_password(matches: Seq<PasswordMatch>, id: i64) -> Seq<bool> {
    matches.map_values(|m: PasswordMatch| m.password_id == id)
}

impl PasswordRepository {
    /// No two passwords are the same or have one number, and no number is used up twice. What is
    /// known of a password is known of one that is there.
    pub open spec fn wf(&self) -> bool {
        &&& 0 <= self.last_id
        &&& 0 <= self.last_match_id
        &&& forall|i: int|
            0 <= i < self.rows@.len() ==> (#[trigger] self.rows@[i]).id <= self.last_id
        &&& forall|i: int, j: int|
            0 <= i < j < self.rows@.len() ==> (#[trigger] self.rows@[i]).value@ != (
            #[trigger] self.rows@[j]).value@ && self.rows@[i].id != self.rows@[j].id
        &&& forall|i: int|
            0 <= i < self.matches@.len() ==> (#[trigger] self.matches@[i]).id
                <= self.last_match_id
        &&& forall|i: int, j: int|
            0 <= i < j < self.matches@.len() ==> !is_match(
                #[trigger] self.matches@[j],
                (#[trigger] self.matches@[i]).password_id,
                crate::text::opt_text(self.matches@[i].archive_format),
                crate::text::opt_text(self.matches@[i].filename_pattern),
            )
        &&& forall|i: int|
            0 <= i < self.matches@.len() ==> self.knows((#[trigger] self.matches@[i]).password_id)
    }

    /// There is a password with this number.
    pub open spec fn knows(&self, id: i64) -> bool {
        exists|k: int| 0 <= k < self.rows@.len() && (#[trigger] self.rows@[k]).id == id
    }

    pub fn new() -> (r: PasswordRepository)
        ensures
            r.wf(),
            r.rows@.len() == 0,
            r.matches@.len() == 0,
            r.last_id == 0,
            r.last_match_id == 0,
    {
        PasswordRepository { rows: Vec::new(), last_id: 0, matches: Vec::new(), last_match_id: 0 }
    }

    /// The row at `k` is that of this password.
    pub open spec fn has_value(&self, k: int, value: Seq<char>) -> bool {
        0 <= k < self.rows@.len() && self.rows@[k].value@ == value
    }

    pub fn get_by_value(&self, value: &str) -> (r: Option<usize>)
        ensures
            match r {
                Some(k) => self.has_value(k as int, value@),
                None => forall|k: int| !#[trigger] self.has_value(k, value@),
            },
    {
        let mut i: usize = 0;
        while i < self.rows.len()
            invariant
                i <= self.rows@.len(),
                forall|k: int| k < i ==> !#[trigger] self.has_value(k, value@),
            decreases self.rows.len() - i,
        {
            if same_text(self.rows[i].value.as_str(), value) {
                return Some(i);
            }
            i += 1;
        }
        None
    }

    fn find(&self, id: i64) -> (r: Option<usize>)
        ensures
            match r {
                Some(k) => k < self.rows@.len() && self.rows@[k as int].id == id,
                None => forall|k: int|
                    0 <= k < self.rows@.len() ==> (#[trigger] self.rows@[k]).id != id,
            },
    {
        let mut i: usize = 0;
        while i < self.rows.len()
            invariant
                i <= self.rows@.len(),
                forall|k: int| 0 <= k < i ==> (#[trigger] self.rows@[k]).id != id,
            decreases self.rows.len() - i,
        {
            if self.rows[i].id == id {
                return Some(i);
            }
            i += 1;
        }
        None
    }

    /// Whether there is a password with this number.
    pub fn contains(&self, id: i64) -> (r: bool)
        ensures
            r == self.knows(id),
    {
        self.find(id).is_some()
    }

    /// Keeps a password, and gives its number.
    pub fn upsert(&mut self, input: NewPassword) -> (r: i64)
        requires
            old(self).wf(),
            old(self).last_id < i64::MAX,
        ensures
            final(self).wf(),
            final(self).matches == old(self).matches,
            final(self).last_match_id == old(self).last_match_id,
            forall|k: int| #[trigger]
                old(self).has_value(k, input.value@) ==> {
                    &&& r == old(self).rows@[k].id
                    &&& final(self).rows@ == old(self).rows@.update(
                        k,
                        old(self).rows@[k].again(input),
                    )
                    &&& final(self).last_id == old(self).last_id
                },
            (forall|k: int| !#[trigger] old(self).has_value(k, input.value@)) ==> {
                &&& r == old(self).last_id + 1
                &&& final(self).last_id == r
                &&& final(self).rows@ == old(self).rows@.push(PasswordRecord::first(r, input))
            },
    {
        let ghost was = *self;
        match self.get_by_value(input.value.as_str()) {
            Some(k) => {
                let mut row: PasswordRecord = self.rows.remove(k);
                let id: i64 = row.id;
                row.source = input.source;
                row.pinned = row.pinned || input.pinned;
                row.disabled = false;
                self.rows.insert(k, row);
                proof {
                    assert(was.has_value(k as int, input.value@));
                    assert(self.rows@ =~= was.rows@.update(
                        k as int,
                        was.rows@[k as int].again(input),
                    ));
                    assert forall|i: int| #[trigger] was.has_value(i, input.value@) implies i
                        == k by {
                        assert(was.rows@[i].value@ == was.rows@[k as int].value@);
                    }
                    lemma_kept_keys(was.rows@, self.rows@);
                    lemma_still_known(was, *self);
                }
                id
            },
            None => {
                let id: i64 = self.last_id + 1;
                self.last_id = id;
                self.rows.push(
                    PasswordRecord {
                        id,
                        value: input.value,
                        source: input.source,
                        pinned: input.pinned,
                        disabled: false,
                        success_count: 0,
                        failure_count: 0,
                        last_success_at: None,
                        last_failure_at: None,
                    },
                );
                proof {
                    lemma_still_known(was, *self);
                    assert forall|i: int, j: int| 0 <= i < j < self.rows@.len() implies (
                    #[trigger] self.rows@[i]).value@ != (#[trigger] self.rows@[j]).value@
                        && self.rows@[i].id != self.rows@[j].id by {
                        if j == was.rows@.len() {
                            assert(!was.has_value(i, input.value@));
                            assert(was.rows@[i].id <= was.last_id);
                        }
                    }
                }
                id
            },
        }
    }

    /// The passwords in use, the most promising first.
    pub fn ranked_candidates(&self, limit: usize) -> (r: Vec<usize>)
        ensures
            exists|places: Seq<usize>| #[trigger]
                crate::order::ranks(places, self.rows@, in_use(self.rows@)) && r@
                    == crate::order::limited(places, limit),
            forall|i: int, j: int|
                #![trigger r@[i], r@[j]]
                0 <= i < j < r@.len() && self.rows@[r@[i] as int].pinned
                    == self.rows@[r@[j] as int].pinned ==> self.rows@[r@[i] as int].success_count
                    >= self.rows@[r@[j] as int].success_count,
            forall|i: int|
                0 <= i < r@.len() ==> (#[trigger] r@[i]) < self.rows@.len()
                    && !self.rows@[r@[i] as int].disabled,
    {
        let mut wanted: Vec<bool> = Vec::new();
        let mut i: usize = 0;
        while i < self.rows.len()
            invariant
                i <= self.rows@.len(),
                wanted@.len() == i,
                forall|k: int| 0 <= k < i ==> #[trigger] wanted@[k] == !self.rows@[k].disabled,
            decreases self.rows.len() - i,
        {
            wanted.push(!self.rows[i].disabled);
            i += 1;
        }
        assert(wanted@ =~= in_use(self.rows@));
        let places = rank(&self.rows, &wanted);
        let ghost sorted = places@;
        assert(crate::order::ranks(sorted, self.rows@, in_use(self.rows@)));
        let listed = limit_places(places, limit);
        proof {
            assert forall|i: int, j: int|
                #![trigger listed@[i], listed@[j]]
                0 <= i < j < listed@.len() && self.rows@[listed@[i] as int].pinned
                    == self.rows@[listed@[j] as int].pinned implies self.rows@[listed@[i] as int].success_count
                >= self.rows@[listed@[j] as int].success_count by {
                promising_passwords_come_first(*self, sorted, limit, i, j);
            }
            assert forall|i: int| 0 <= i < listed@.len() implies (#[trigger] listed@[i])
                < self.rows@.len() && !self.rows@[listed@[i] as int].disabled by {
                assert(listed@[i] == sorted[i]);
                assert(in_use(self.rows@)[sorted[i] as int]);
            }
        }
        listed
    }

    /// The rows, with the one of this number changed.
    pub open spec fn with_row(
        &self,
        new: PasswordRepository,
        id: i64,
        change: spec_fn(PasswordRecord) -> PasswordRecord,
    ) -> bool {
        &&& new.matches == self.matches
        &&& new.last_match_id == self.last_match_id
        &&& new.last_id == self.last_id
        &&& new.rows@.len() == self.rows@.len()
        &&& forall|k: int|
            0 <= k < self.rows@.len() ==> #[trigger] new.rows@[k] == (if self.rows@[k].id == id {
                change(self.rows@[k])
            } else {
                self.rows@[k]
            })
    }

    /// Notes that a password fitted.
    pub fn record_success(&mut self, id: i64, now: String)
        requires
            old(self).wf(),
            forall|k: int|
                0 <= k < old(self).rows@.len() ==> (#[trigger] old(self).rows@[k]).success_count
                    < i64::MAX,
        ensures
            final(self).wf(),
            old(self).with_row(
                *final(self),
                id,
                |p: PasswordRecord|
                    PasswordRecord {
                        success_count: (p.success_count + 1) as i64,
                        last_success_at: Some(now),
                        ..p
                    },
            ),
    {
        let ghost was = *self;
        if let Some(k) = self.find(id) {
            let mut row: PasswordRecord = self.rows.remove(k);
            row.success_count = row.success_count + 1;
            row.last_success_at = Some(now);
            self.rows.insert(k, row);
            proof {
                assert(self.rows@ =~= was.rows@.update(k as int, self.rows@[k as int]));
                lemma_kept_keys(was.rows@, self.rows@);
                lemma_still_known(was, *self);
                lemma_one_number(was.rows@, k as int);
            }
        }
    }

    /// Notes that a password did not fit.
    pub fn record_failure(&mut self, id: i64, now: String)
        requires
            old(self).wf(),
            forall|k: int|
                0 <= k < old(self).rows@.len() ==> (#[trigger] old(self).rows@[k]).failure_count
                    < i64::MAX,
        ensures
            final(self).wf(),
            old(self).with_row(
                *final(self),
                id,
                |p: PasswordRecord|
                    PasswordRecord {
                        failure_count: (p.failure_count + 1) as i64,
                        last_failure_at: Some(now),
                        ..p
                    },
            ),
    {
        let ghost was = *self;
        if let Some(k) = self.find(id) {
            let mut row: PasswordRecord = self.rows.remove(k);
            row.failure_count = row.failure_count + 1;
            row.last_failure_at = Some(now);
            self.rows.insert(k, row);
            proof {
                assert(self.rows@ =~= was.rows@.update(k as int, self.rows@[k as int]));
                lemma_kept_keys(was.rows@, self.rows@);
                lemma_still_known(was, *self);
                lemma_one_number(was.rows@, k as int);
            }
        }
    }

    /// Takes a password out of use.
    pub fn disable(&mut self, id: i64)
        requires
            old(self).wf(),
        ensures
            final(self).wf(),
            old(self).with_row(
                *final(self),
                id,
                |p: PasswordRecord| PasswordRecord { disabled: true, ..p },
            ),
    {
        let ghost was = *self;
        if let Some(k) = self.find(id) {
            let mut row: PasswordRecord = self.rows.remove(k);
            row.disabled = true;
            self.rows.insert(k, row);
            proof {
                assert(self.rows@ =~= was.rows@.update(k as int, self.rows@[k as int]));
                lemma_kept_keys(was.rows@, self.rows@);
                lemma_still_known(was, *self);
                lemma_one_number(was.rows@, k as int);
            }
        }
    }

    /// Forgets a password, and what was known of it.
    pub fn delete(&mut self, id: i64)
        requires
            old(self).wf(),
        ensures
            final(self).wf(),
            !final(self).knows(id),
            forall|other: i64| other != id ==> #[trigger] final(self).knows(other) == old(self).knows(
                other,
            ),
            final(self).matches@ == old(self).matches@.filter(|m: PasswordMatch| m.password_id != id),
            final(self).last_match_id == old(self).last_match_id,
            final(self).last_id == old(self).last_id,
            forall|k: int|
                0 <= k < old(self).rows@.len() && (#[trigger] old(self).rows@[k]).id == id
                    ==> final(self).rows@ == old(self).rows@.remove(k),
            !old(self).knows(id) ==> final(self).rows@ == old(self).rows@,
    {
        let ghost was = *self;
        if let Some(k) = self.find(id) {
            let _ = self.rows.remove(k);
            proof {
                lemma_one_number(was.rows@, k as int);
                lemma_one_gone(was, *self, k as int);
            }
        }
        let ghost mid = *self;
        let mut others: Vec<bool> = Vec::new();
        let mut i: usize = 0;
        while i < self.matches.len()
            invariant
                i <= self.matches@.len(),
                others@.len() == i,
                forall|k: int|
                    0 <= k < i ==> #[trigger] others@[k] == (self.matches@[k].password_id != id),
            decreases self.matches.len() - i,
        {
            others.push(self.matches[i].password_id != id);
            i += 1;
        }
        keep_rows(&mut self.matches, &others);
        proof {
            let keep = |m: PasswordMatch| m.password_id != id;
            lemma_still_known(mid, *self);
            lemma_still_known(*self, mid);
            assert forall|other: i64| other != id implies #[trigger] self.knows(other) == was.knows(
                other,
            ) by {
                assert(mid.knows(other) == was.knows(other));
                assert(mid.knows(other) ==> self.knows(other));
            }
            assert(self.matches@ == was.matches@.filter(keep));
            lemma_matches_left(was.matches@, keep);
            assert forall|i: int| 0 <= i < self.matches@.len() implies self.knows(
                (#[trigger] self.matches@[i]).password_id,
            ) by {
                let m = self.matches@[i];
                assert(was.matches@.contains(m) && keep(m));
                let j = choose|j: int| 0 <= j < was.matches@.len() && was.matches@[j] == m;
                assert(was.knows(was.matches@[j].password_id));
            }
            assert forall|i: int| 0 <= i < self.matches@.len() implies (
            #[trigger] self.matches@[i]).id <= self.last_match_id by {
                let m = self.matches@[i];
                assert(was.matches@.contains(m));
                let j = choose|j: int| 0 <= j < was.matches@.len() && was.matches@[j] == m;
                assert(was.matches@[j].id <= was.last_match_id);
            }
        }
    }

    /// The match at `k` is of this password, format and name.
    pub open spec fn matches_at(
        &self,
        k: int,
        password_id: i64,
        format: Option<Seq<char>>,
        pattern: Option<Seq<char>>,
    ) -> bool {
        0 <= k < self.matches@.len() && is_match(self.matches@[k], password_id, format, pattern)
    }

    fn find_match(&self, password_id: i64, format: Option<&str>, pattern: Option<&str>) -> (r:
        Option<usize>)
        ensures
            match r {
                Some(k) => self.matches_at(
                    k as int,
                    password_id,
                    crate::text::opt_str(format),
                    crate::text::opt_str(pattern),
                ),
                None => forall|k: int| !#[trigger]
                    self.matches_at(
                        k,
                        password_id,
                        crate::text::opt_str(format),
                        crate::text::opt_str(pattern),
                    ),
            },
    {
        let mut i: usize = 0;
        while i < self.matches.len()
            invariant
                i <= self.matches@.len(),
                forall|k: int|
                    k < i ==> !#[trigger] self.matches_at(
                        k,
                        password_id,
                        crate::text::opt_str(format),
                        crate::text::opt_str(pattern),
                    ),
            decreases self.matches.len() - i,
        {
            let m = &self.matches[i];
            if m.password_id == password_id && same_text(
                text_or_empty(&m.archive_format),
                str_or_empty(format),
            ) && same_text(text_or_empty(&m.filename_pattern), str_or_empty(pattern)) {
                return Some(i);
            }
            i += 1;
        }
        None
    }

    /// The matches, with one that was noted: the one of this kind changed, or a new one.
    pub open spec fn with_match(
        &self,
        new: PasswordRepository,
        password_id: i64,
        format: Option<Seq<char>>,
        pattern: Option<Seq<char>>,
        change: spec_fn(PasswordMatch) -> PasswordMatch,
    ) -> bool {
        &&& new.rows == self.rows
        &&& new.last_id == self.last_id
        &&& forall|k: int| #[trigger]
            self.matches_at(k, password_id, format, pattern) ==> new.matches@
                == self.matches@.update(k, change(self.matches@[k])) && new.last_match_id
                == self.last_match_id
        &&& (forall|k: int| !#[trigger] self.matches_at(k, password_id, format, pattern)) ==> {
            let m = new.matches@.last();
            &&& new.last_match_id == self.last_match_id + 1
            &&& new.matches@.len() == self.matches@.len() + 1
            &&& new.matches@.drop_last() == self.matches@
            &&& crate::text::opt_text(m.archive_format) == format
            &&& crate::text::opt_text(m.filename_pattern) == pattern
            &&& m == change(
                PasswordMatch {
                    id: new.last_match_id,
                    password_id,
                    archive_format: m.archive_format,
                    path_pattern: None,
                    filename_pattern: m.filename_pattern,
                    success_count: 0,
                    failure_count: 0,
                    last_success_at: None,
                    last_failure_at: None,
                },
            )
        }
    }

    /// Notes that a password fitted an archive of this format and name. Nothing is noted of a
    /// password that is not there.
    pub fn record_match_success(
        &mut self,
        password_id: i64,
        archive_format: Option<&str>,
        filename_pattern: Option<&str>,
        now: String,
    ) -> (r: Result<(), StoreError>)
        requires
            old(self).wf(),
            old(self).last_match_id < i64::MAX,
            forall|k: int|
                0 <= k < old(self).matches@.len() ==> (
                #[trigger] old(self).matches@[k]).success_count < i64::MAX,
        ensures
            final(self).wf(),
            r is Ok == old(self).knows(password_id),
            r matches Err(e) ==> e == StoreError::UnknownPassword && *final(self) == *old(self),
            r is Ok ==> old(self).with_match(
                *final(self),
                password_id,
                crate::text::opt_str(archive_format),
                crate::text::opt_str(filename_pattern),
                |m: PasswordMatch|
                    PasswordMatch {
                        success_count: (m.success_count + 1) as i64,
                        last_success_at: Some(now),
                        ..m
                    },
            ),
    {
        let ghost was = *self;
        if !self.contains(password_id) {
            return Err(StoreError::UnknownPassword);
        }
        match self.find_match(password_id, archive_format, filename_pattern) {
            Some(k) => {
                let mut m: PasswordMatch = self.matches.remove(k);
                m.success_count = m.success_count + 1;
                m.last_success_at = Some(now);
                self.matches.insert(k, m);
                proof {
                    assert(self.matches@ =~= was.matches@.update(k as int, m));
                    lemma_kept_matches(was.matches@, self.matches@);
                    lemma_still_known(was, *self);
                    lemma_one_match(
                        was,
                        k as int,
                        password_id,
                        crate::text::opt_str(archive_format),
                        crate::text::opt_str(filename_pattern),
                    );
                }
            },
            None => {
                let id: i64 = self.last_match_id + 1;
                self.last_match_id = id;
                self.matches.push(
                    PasswordMatch {
                        id,
                        password_id,
                        archive_format: own(archive_format),
                        path_pattern: None,
                        filename_pattern: own(filename_pattern),
                        success_count: 1,
                        failure_count: 0,
                        last_success_at: Some(now),
                        last_failure_at: None,
                    },
                );
                proof {
                    assert(self.matches@.drop_last() =~= was.matches@);
                    lemma_new_match(was, *self);
                    lemma_still_known(was, *self);
                }
            },
        }
        Ok(())
    }

    /// Notes that a password did not fit an archive of this format and name. Nothing is noted of a
    /// password that is not there.
    pub fn record_match_failure(
        &mut self,
        password_id: i64,
        archive_format: Option<&str>,
        filename_pattern: Option<&str>,
        now: String,
    ) -> (r: Result<(), StoreError>)
        requires
            old(self).wf(),
            old(self).last_match_id < i64::MAX,
            forall|k: int|
                0 <= k < old(self).matches@.len() ==> (
                #[trigger] old(self).matches@[k]).failure_count < i64::MAX,
        ensures
            final(self).wf(),
            r is Ok == old(self).knows(password_id),
            r matches Err(e) ==> e == StoreError::UnknownPassword && *final(self) == *old(self),
            r is Ok ==> old(self).with_match(
                *final(self),
                password_id,
                crate::text::opt_str(archive_format),
                crate::text::opt_str(filename_pattern),
                |m: PasswordMatch|
                    PasswordMatch {
                        failure_count: (m.failure_count + 1) as i64,
                        last_failure_at: Some(now),
                        ..m
                    },
            ),
    {
        let ghost was = *self;
        if !self.contains(password_id) {
            return Err(StoreError::UnknownPassword);
        }
        match self.find_match(password_id, archive_format, filename_pattern) {
            Some(k) => {
                let mut m: PasswordMatch = self.matches.remove(k);
                m.failure_count = m.failure_count + 1;
                m.last_failure_at = Some(now);
                self.matches.insert(k, m);
                proof {
                    assert(self.matches@ =~= was.matches@.update(k as int, m));
                    lemma_kept_matches(was.matches@, self.matches@);
                    lemma_still_known(was, *self);
                    lemma_one_match(
                        was,
                        k as int,
                        password_id,
                        crate::text::opt_str(archive_format),
                        crate::text::opt_str(filename_pattern),
                    );
                }
            },
            None => {
                let id: i64 = self.last_match_id + 1;
                self.last_match_id = id;
                self.matches.push(
                    PasswordMatch {
                        id,
                        password_id,
                        archive_format: own(archive_format),
                        path_pattern: None,
                        filename_pattern: own(filename_pattern),
                        success_count: 0,
                        failure_count: 1,
                        last_success_at: None,
                        last_failure_at: Some(now),
                    },
                );
                proof {
                    assert(self.matches@.drop_last() =~= was.matches@);
                    lemma_new_match(was, *self);
                    lemma_still_known(was, *self);
                }
            },
        }
        Ok(())
    }

    /// What is known of one password, the most frequent kind first.
    pub fn matches_for(&self, password_id: i64) -> (r: Vec<usize>)
        ensures
            crate::order::ranks(r@, self.matches@, of_password(self.matches@, password_id)),
    {
        let mut wanted: Vec<bool> = Vec::new();
        let mut i: usize = 0;
        while i < self.matches.len()
            invariant
                i <= self.matches@.len(),
                wanted@.len() == i,
                forall|k: int|
                    0 <= k < i ==> #[trigger] wanted@[k] == (self.matches@[k].password_id
                        == password_id),
            decreases self.matches.len() - i,
        {
            wanted.push(self.matches[i].password_id == password_id);
            i += 1;
        }
        assert(wanted@ =~= of_password(self.matches@, password_id));
        rank(&self.matches, &wanted)
    }
}

proof fn lemma_kept_keys(a: Seq<PasswordRecord>, b: Seq<PasswordRecord>)
    requires
        a.len() == b.len(),
        forall|i: int|
            0 <= i < a.len() ==> (#[trigger] b[i]).value == a[i].value && b[i].id == a[i].id,
        forall|i: int, j: int|
            0 <= i < j < a.len() ==> (#[trigger] a[i]).value@ != (#[trigger] a[j]).value@
                && a[i].id != a[j].id,
    ensures
        forall|i: int, j: int|
            0 <= i < j < b.len() ==> (#[trigger] b[i]).value@ != (#[trigger] b[j]).value@
                && b[i].id != b[j].id,
{
    assert forall|i: int, j: int| 0 <= i < j < b.len() implies (#[trigger] b[i]).value@ != (
    #[trigger] b[j]).value@ && b[i].id != b[j].id by {
        assert(a[i].value@ != a[j].value@ && a[i].id != a[j].id);
    }
}

proof fn lemma_still_known(a: PasswordRepository, b: PasswordRepository)
    requires
        a.rows@.len() <= b.rows@.len(),
        forall|i: int| 0 <= i < a.rows@.len() ==> (#[trigger] b.rows@[i]).id == a.rows@[i].id,
    ensures
        forall|id: i64| #[trigger] a.knows(id) ==> b.knows(id),
{
    assert forall|id: i64| #[trigger] a.knows(id) implies b.knows(id) by {
        let k = choose|k: int| 0 <= k < a.rows@.len() && (#[trigger] a.rows@[k]).id == id;
        assert(b.rows@[k].id == id);
    }
}

proof fn lemma_one_number(rows: Seq<PasswordRecord>, k: int)
    requires
        0 <= k < rows.len(),
        forall|i: int, j: int|
            0 <= i < j < rows.len() ==> (#[trigger] rows[i]).value@ != (#[trigger] rows[j]).value@
                && rows[i].id != rows[j].id,
    ensures
        forall|i: int|
            0 <= i < rows.len() && (#[trigger] rows[i]).id == rows[k].id ==> i == k,
{
    assert forall|i: int| 0 <= i < rows.len() && (#[trigger] rows[i]).id == rows[k].id implies i
        == k by {
        if i < k {
            assert(rows[i].id != rows[k].id);
        } else if k < i {
            assert(rows[k].id != rows[i].id);
        }
    }
}

/// With one row gone the others are still known.
proof fn lemma_one_gone(a: PasswordRepository, b: PasswordRepository, k: int)
    requires
        a.wf(),
        0 <= k < a.rows@.len(),
        b.rows@ == a.rows@.remove(k),
    ensures
        !b.knows(a.rows@[k].id),
        forall|other: i64| other != a.rows@[k].id ==> #[trigger] b.knows(other) == a.knows(other),
        forall|i: int|
            0 <= i < b.rows@.len() ==> #[trigger] b.rows@[i] == a.rows@[if i < k {
                i
            } else {
                i + 1
            }],
{
    lemma_one_number(a.rows@, k);
    assert forall|other: i64| other != a.rows@[k].id implies #[trigger] b.knows(other) == a.knows(
        other,
    ) by {
        if a.knows(other) {
            let i = choose|i: int| 0 <= i < a.rows@.len() && (#[trigger] a.rows@[i]).id == other;
            let j = if i < k {
                i
            } else {
                i - 1
            };
            assert(b.rows@[j].id == other);
        }
        if b.knows(other) {
            let j = choose|j: int| 0 <= j < b.rows@.len() && (#[trigger] b.rows@[j]).id == other;
            let i = if j < k {
                j
            } else {
                j + 1
            };
            assert(a.rows@[i].id == other);
        }
    }
}

/// No two of the matches that are left are of one kind.
proof fn lemma_matches_left(a: Seq<PasswordMatch>, keep: spec_fn(PasswordMatch) -> bool)
    requires
        forall|i: int, j: int|
            0 <= i < j < a.len() ==> !is_match(
                #[trigger] a[j],
                (#[trigger] a[i]).password_id,
                crate::text::opt_text(a[i].archive_format),
                crate::text::opt_text(a[i].filename_pattern),
            ),
    ensures
        forall|i: int| 0 <= i < a.filter(keep).len() ==> a.contains(#[trigger] a.filter(keep)[i])
            && keep(a.filter(keep)[i]),
        forall|i: int, j: int|
            0 <= i < j < a.filter(keep).len() ==> !is_match(
                #[trigger] a.filter(keep)[j],
                (#[trigger] a.filter(keep)[i]).password_id,
                crate::text::opt_text(a.filter(keep)[i].archive_format),
                crate::text::opt_text(a.filter(keep)[i].filename_pattern),
            ),
    decreases a.len(),
{
    reveal(Seq::filter);
    if a.len() > 0 {
        let rest = a.drop_last();
        assert forall|i: int, j: int| 0 <= i < j < rest.len() implies !is_match(
            #[trigger] rest[j],
            (#[trigger] rest[i]).password_id,
            crate::text::opt_text(rest[i].archive_format),
            crate::text::opt_text(rest[i].filename_pattern),
        ) by {
            assert(rest[i] == a[i] && rest[j] == a[j]);
        }
        lemma_matches_left(rest, keep);
        let left = a.filter(keep);
        let before = rest.filter(keep);
        assert forall|m: PasswordMatch| rest.contains(m) implies a.contains(m) by {
            let i = choose|i: int| 0 <= i < rest.len() && rest[i] == m;
            assert(a[i] == m);
        }
        assert(a.contains(a.last()));
        assert forall|i: int| 0 <= i < left.len() implies a.contains(#[trigger] left[i]) && keep(
            left[i],
        ) by {
            if i < before.len() {
                assert(left[i] == before[i]);
            }
        }
        assert forall|i: int, j: int| 0 <= i < j < left.len() implies !is_match(
            #[trigger] left[j],
            (#[trigger] left[i]).password_id,
            crate::text::opt_text(left[i].archive_format),
            crate::text::opt_text(left[i].filename_pattern),
        ) by {
            assert(left[i] == before[i]);
            if j < before.len() {
                assert(left[j] == before[j]);
            } else {
                assert(left[j] == a.last());
                assert(rest.contains(before[i]));
                let k = choose|k: int| 0 <= k < rest.len() && rest[k] == before[i];
                assert(a[k] == before[i]);
            }
        }
    }
}

proof fn lemma_kept_matches(a: Seq<PasswordMatch>, b: Seq<PasswordMatch>)
    requires
        a.len() == b.len(),
        forall|i: int|
            0 <= i < a.len() ==> (#[trigger] b[i]).password_id == a[i].password_id
                && b[i].archive_format == a[i].archive_format && b[i].filename_pattern
                == a[i].filename_pattern,
        forall|i: int, j: int|
            0 <= i < j < a.len() ==> !is_match(
                #[trigger] a[j],
                (#[trigger] a[i]).password_id,
                crate::text::opt_text(a[i].archive_format),
                crate::text::opt_text(a[i].filename_pattern),
            ),
    ensures
        forall|i: int, j: int|
            0 <= i < j < b.len() ==> !is_match(
                #[trigger] b[j],
                (#[trigger] b[i]).password_id,
                crate::text::opt_text(b[i].archive_format),
                crate::text::opt_text(b[i].filename_pattern),
            ),
{
    assert forall|i: int, j: int| 0 <= i < j < b.len() implies !is_match(
        #[trigger] b[j],
        (#[trigger] b[i]).password_id,
        crate::text::opt_text(b[i].archive_format),
        crate::text::opt_text(b[i].filename_pattern),
    ) by {
        assert(!is_match(
            a[j],
            a[i].password_id,
            crate::text::opt_text(a[i].archive_format),
            crate::text::opt_text(a[i].filename_pattern),
        ));
    }
}

proof fn lemma_one_match(
    r: PasswordRepository,
    k: int,
    password_id: i64,
    format: Option<Seq<char>>,
    pattern: Option<Seq<char>>,
)
    requires
        r.wf(),
        r.matches_at(k, password_id, format, pattern),
    ensures
        forall|i: int| #[trigger] r.matches_at(i, password_id, format, pattern) ==> i == k,
{
    assert forall|i: int| #[trigger] r.matches_at(i, password_id, format, pattern) implies i
        == k by {
        let m = r.matches@;
        if i < k {
            assert(!is_match(
                m[k],
                m[i].password_id,
                crate::text::opt_text(m[i].archive_format),
                crate::text::opt_text(m[i].filename_pattern),
            ));
        } else if k < i {
            assert(!is_match(
                m[i],
                m[k].password_id,
                crate::text::opt_text(m[k].archive_format),
                crate::text::opt_text(m[k].filename_pattern),
            ));
        }
    }
}

proof fn lemma_new_match(a: PasswordRepository, b: PasswordRepository)
    requires
        a.wf(),
        b.matches@.len() == a.matches@.len() + 1,
        b.matches@.drop_last() == a.matches@,
        forall|k: int| !#[trigger]
            a.matches_at(
                k,
                b.matches@.last().password_id,
                crate::text::opt_text(b.matches@.last().archive_format),
                crate::text::opt_text(b.matches@.last().filename_pattern),
            ),
    ensures
        forall|i: int, j: int|
            0 <= i < j < b.matches@.len() ==> !is_match(
                #[trigger] b.matches@[j],
                (#[trigger] b.matches@[i]).password_id,
                crate::text::opt_text(b.matches@[i].archive_format),
                crate::text::opt_text(b.matches@[i].filename_pattern),
            ),
        forall|i: int|
            0 <= i < a.matches@.len() ==> #[trigger] b.matches@[i] == a.matches@[i],
{
    let n = a.matches@.len() as int;
    assert forall|i: int| 0 <= i < n implies #[trigger] b.matches@[i] == a.matches@[i] by {
        assert(b.matches@.drop_last()[i] == b.matches@[i]);
    }
    assert forall|i: int, j: int| 0 <= i < j < b.matches@.len() implies !is_match(
        #[trigger] b.matches@[j],
        (#[trigger] b.matches@[i]).password_id,
        crate::text::opt_text(b.matches@[i].archive_format),
        crate::text::opt_text(b.matches@[i].filename_pattern),
    ) by {
        assert(b.matches@[i] == a.matches@[i]);
        if j < n {
            assert(b.matches@[j] == a.matches@[j]);
        } else {
            assert(!a.matches_at(
                i,
                b.matches@.last().password_id,
                crate::text::opt_text(b.matches@.last().archive_format),
                crate::text::opt_text(b.matches@.last().filename_pattern),
            ));
        }
    }
}

/// Keeping a password once more loses neither its pin nor its record.
pub proof fn keeping_again_loses_nothing(row: PasswordRecord, new: NewPassword)
    ensures
        row.pinned ==> row.again(new).pinned,
        row.again(new).id == row.id,
        row.again(new).success_count == row.success_count,
        row.again(new).failure_count == row.failure_count,
        row.again(new).last_success_at == row.last_success_at,
        row.again(new).last_failure_at == row.last_failure_at,
{
}

/// A pinned password is tried before any that is not.
pub proof fn pinned_goes_first(a: PasswordRecord, b: PasswordRecord)
    requires
        a.pinned,
        !b.pinned,
    ensures
        a.precedes(&b),
        !b.precedes(&a),
{
}

/// A password that is kept is found by its value, in use, under the number that was given out,
/// and no other password is touched.
pub proof fn kept_password_is_found(
    before: PasswordRepository,
    after: PasswordRepository,
    input: NewPassword,
    id: i64,
)
    requires
        after.wf(),
        forall|k: int| #[trigger]
            before.has_value(k, input.value@) ==> id == before.rows@[k].id && after.rows@
                == before.rows@.update(k, before.rows@[k].again(input)),
        (forall|k: int| !#[trigger] before.has_value(k, input.value@)) ==> after.rows@
            == before.rows@.push(PasswordRecord::first(id, input)),
    ensures
        exists|k: int| #[trigger] after.has_value(k, input.value@),
        forall|k: int| #[trigger]
            after.has_value(k, input.value@) ==> after.rows@[k].id == id && !after.rows@[k].disabled,
        forall|k: int|
            0 <= k < before.rows@.len() && (#[trigger] before.rows@[k]).value@ != input.value@
                ==> after.rows@[k] == before.rows@[k],
{
    let at = if exists|k: int| #[trigger] before.has_value(k, input.value@) {
        choose|k: int| #[trigger] before.has_value(k, input.value@)
    } else {
        before.rows@.len() as int
    };
    assert(after.has_value(at, input.value@));
    assert forall|k: int| #[trigger] after.has_value(k, input.value@) implies k == at by {
        if k < at {
            assert(after.rows@[k].value@ != after.rows@[at].value@);
        } else if at < k {
            assert(after.rows@[at].value@ != after.rows@[k].value@);
        }
    }
}

/// Of two passwords that are listed, the pinned one comes first; of two alike in that, the one
/// that fitted more often; at equal counts the one that fitted last; then the one that failed
/// less often; and then the older one. None of them is disabled.
pub proof fn promising_passwords_come_first(
    repository: PasswordRepository,
    places: Seq<usize>,
    limit: usize,
    i: int,
    j: int,
)
    requires
        crate::order::ranks(places, repository.rows@, in_use(repository.rows@)),
        0 <= i < j < crate::order::limited(places, limit).len(),
    ensures
        ({
            let listed = crate::order::limited(places, limit);
            let a = repository.rows@[listed[i] as int];
            let b = repository.rows@[listed[j] as int];
            let last_of_a = match a.last_success_at {
                Some(at) => at@,
                None => Seq::empty(),
            };
            let last_of_b = match b.last_success_at {
                Some(at) => at@,
                None => Seq::empty(),
            };
            &&& !a.disabled && !b.disabled
            &&& b.pinned ==> a.pinned
            &&& a.pinned == b.pinned ==> {
                &&& a.success_count >= b.success_count
                &&& a.success_count == b.success_count ==> {
                    &&& !crate::text::text_before(last_of_a, last_of_b)
                    &&& last_of_a == last_of_b ==> {
                        &&& a.failure_count <= b.failure_count
                        &&& a.failure_count == b.failure_count ==> a.id <= b.id
                    }
                }
            }
        }),
{
    let listed = crate::order::limited(places, limit);
    assert(listed[i] == places[i] && listed[j] == places[j]);
    let a = repository.rows@[places[i] as int];
    let b = repository.rows@[places[j] as int];
    assert(in_use(repository.rows@)[places[i] as int]);
    assert(in_use(repository.rows@)[places[j] as int]);
    assert(!b.precedes(&a));
}

/// What is known of a password is listed by how often it fitted, the most frequent first; of two
/// alike the older one comes first.
pub proof fn frequent_matches_come_first(
    matches: Seq<PasswordMatch>,
    id: i64,
    places: Seq<usize>,
    i: int,
    j: int,
)
    requires
        crate::order::ranks(places, matches, of_password(matches, id)),
        0 <= i < j < places.len(),
    ensures
        matches[places[i] as int].success_count >= matches[places[j] as int].success_count,
        matches[places[i] as int].success_count == matches[places[j] as int].success_count
            ==> matches[places[i] as int].id <= matches[places[j] as int].id,
        matches[places[i] as int].password_id == id,
        matches[places[j] as int].password_id == id,
{
    assert(of_password(matches, id)[places[i] as int]);
    assert(of_password(matches, id)[places[j] as int]);
    assert(!matches[places[j] as int].precedes(&matches[places[i] as int]));
}

/// A password that is kept for the first time has neither fitted nor failed, and is in use.
pub proof fn new_password_is_untried(id: i64, new: NewPassword)
    ensures
        ({
            let row = PasswordRecord::first(id, new);
            &&& row.id == id && row.value == new.value && row.source == new.source
            &&& row.pinned == new.pinned
            &&& !row.disabled
            &&& row.success_count == 0 && row.failure_count == 0
            &&& row.last_success_at is None && row.last_failure_at is None
        }),
{
}

/// A success moves a password ahead of its like: of two rows that are alike in all but one more
/// success, the one with it comes first, and of two alike in all but one more failure the other.
pub proof fn success_moves_a_password_ahead(a: PasswordRecord, b: PasswordRecord)
    requires
        a.pinned == b.pinned,
    ensures
        a.success_count > b.success_count ==> a.precedes(&b) && !b.precedes(&a),
        a.success_count == b.success_count && a.last_success_at == b.last_success_at
            && a.failure_count < b.failure_count ==> a.precedes(&b) && !b.precedes(&a),
        a.success_count == b.success_count && a.last_success_at == b.last_success_at
            && a.failure_count == b.failure_count && a.id < b.id ==> a.precedes(&b),
{
    let x = or_empty(crate::text::opt_text(a.last_success_at));
    crate::text::texts_are_in_line(x, x, x);
}

/// A match is found by its password, its format and its name together; a format or a name that is
/// not given is the same as an empty one.
pub proof fn match_is_told_by_all_three(
    m: PasswordMatch,
    id: i64,
    format: Option<Seq<char>>,
    pattern: Option<Seq<char>>,
)
    requires
        is_match(m, id, format, pattern),
    ensures
        m.password_id == id,
        m.archive_format is Some && format is Some ==> m.archive_format->0@ == format->0,
        m.filename_pattern is Some && pattern is Some ==> m.filename_pattern->0@ == pattern->0,
        m.archive_format is None && format is Some ==> format->0.len() == 0,
        m.filename_pattern is None && pattern is Some ==> pattern->0.len() == 0,
{
}

/// A change of one password leaves the others as they are, and the matches too.
pub proof fn one_password_changes_alone(
    before: PasswordRepository,
    after: PasswordRepository,
    id: i64,
    change: spec_fn(PasswordRecord) -> PasswordRecord,
    k: int,
)
    requires
        before.with_row(after, id, change),
        0 <= k < before.rows@.len(),
    ensures
        after.rows@.len() == before.rows@.len(),
        before.rows@[k].id != id ==> after.rows@[k] == before.rows@[k],
        before.rows@[k].id == id ==> after.rows@[k] == change(before.rows@[k]),
        after.matches == before.matches,
        after.last_id == before.last_id,
        !before.knows(id) ==> after.rows@ == before.rows@,
{
    if !before.knows(id) {
        assert forall|j: int| 0 <= j < before.rows@.len() implies after.rows@[j]
            == before.rows@[j] by {
            assert(before.rows@[j].id != id);
        }
        assert(after.rows@ =~= before.rows@);
    }
}

/// A match that is noted leaves all other matches as they are, and the passwords too. The first of
/// its kind is added behind them, under a number of its own.
pub proof fn one_match_is_noted_alone(
    before: PasswordRepository,
    after: PasswordRepository,
    password_id: i64,
    format: Option<Seq<char>>,
    pattern: Option<Seq<char>>,
    change: spec_fn(PasswordMatch) -> PasswordMatch,
    k: int,
)
    requires
        before.with_match(after, password_id, format, pattern, change),
        0 <= k < before.matches@.len(),
    ensures
        after.rows == before.rows,
        after.last_id == before.last_id,
        before.matches_at(k, password_id, format, pattern) ==> after.matches@[k] == change(
            before.matches@[k],
        ) && after.matches@.len() == before.matches@.len(),
        (forall|j: int| !#[trigger] before.matches_at(j, password_id, format, pattern))
            ==> after.matches@.len() == before.matches@.len() + 1 && after.matches@[k]
            == before.matches@[k] && after.last_match_id == before.last_match_id + 1,
        forall|j: int| #[trigger]
            before.matches_at(j, password_id, format, pattern) && j != k ==> after.matches@[k]
                == before.matches@[k],
{
    if forall|j: int| !#[trigger] before.matches_at(j, password_id, format, pattern) {
        assert(after.matches@.drop_last()[k] == before.matches@[k]);
    }
}

} // verus!
