//! What is known of the files that were seen: one entry for each, by its sampled content and
//! its size.

use vstd::prelude::*;
use crate::text::{is_text_before, same_text};

verus! {

/// A name that a file was seen under, and where it was inside another one.
#[derive(Debug, PartialEq, Eq)]
pub struct NameOffset {
    pub name: String,
    pub offset: Option<i64>,
}

impl Clone for NameOffset {
    fn clone(&self) -> (r: NameOffset)
        ensures
            r == *self,
    {
        NameOffset { name: self.name.clone(), offset: self.offset }
    }
}

/// What is known of a file.
#[derive(Debug, PartialEq, Eq)]
pub struct KnownFile {
    pub sample_hash: String,
    pub size: i64,
    pub names_offsets: Vec<NameOffset>,
    pub password_id: Option<i64>,
    pub confirmed_encoding: Option<String>,
    pub last_extract_at: Option<String>,
}

/// The two pairs are the same.
pub open spec fn same_pair(a: NameOffset, b: NameOffset) -> bool {
    a.name@ == b.name@ && a.offset == b.offset
}

/// The pair is among these.
pub open spec fn has_pair(names: Seq<NameOffset>, p: NameOffset) -> bool {
    exists|i: int| 0 <= i < names.len() && same_pair(#[trigger] names[i], p)
}

/// The names, with one more that is not among them.
pub open spec fn merged(names: Seq<NameOffset>, incoming: Option<NameOffset>) -> Seq<NameOffset> {
    match incoming {
        Some(p) => if has_pair(names, p) {
            names
        } else {
            names.push(p)
        },
        None => names,
    }
}

fn merge_name_offset(names: &mut Vec<NameOffset>, incoming: Option<NameOffset>)
    ensures
        final(names)@ == merged(old(names)@, incoming),
{
    if let Some(pair) = incoming {
        let mut i: usize = 0;
        while i < names.len()
            invariant
                i <= names@.len(),
                names@ == old(names)@,
                forall|k: int| 0 <= k < i ==> !same_pair(#[trigger] names@[k], pair),
                incoming == Some(pair),
            decreases names.len() - i,
        {
            if same_text(names[i].name.as_str(), pair.name.as_str()) && names[i].offset
                == pair.offset {
                assert(same_pair(names@[i as int], pair));
                return ;
            }
            i += 1;
        }
        names.push(pair);
    }
}

/// The entry without this password.
pub open spec fn without_password(f: KnownFile, id: i64) -> KnownFile {
    if f.password_id == Some(id) {
        KnownFile { password_id: None, ..f }
    } else {
        f
    }
}

/// The entries of all files.
#[derive(Debug)]
pub struct KnownFileRepository {
    pub rows: Vec<KnownFile>,
}

impl KnownFileRepository {
    /// There is one entry for a file.
    pub open spec fn wf(&self) -> bool {
        forall|i: int, j: int|
            0 <= i < j < self.rows@.len() ==> (#[trigger] self.rows@[i]).sample_hash@ != (
            #[trigger] self.rows@[j]).sample_hash@ || self.rows@[i].size != self.rows@[j].size
    }

    /// The entry at `k` is that of this file.
    pub open spec fn is_at(&self, k: int, sample_hash: Seq<char>, size: i64) -> bool {
        0 <= k < self.rows@.len() && self.rows@[k].sample_hash@ == sample_hash && self.rows@[k].size
            == size
    }

    pub fn new() -> (r: KnownFileRepository)
        ensures
            r.wf(),
            r.rows@.len() == 0,
    {
        KnownFileRepository { rows: Vec::new() }
    }

    /// Where the entry of a file is.
    pub fn find(&self, sample_hash: &str, size: i64) -> (r: Option<usize>)
        ensures
            match r {
                Some(k) => self.is_at(k as int, sample_hash@, size),
                None => forall|k: int| !#[trigger] self.is_at(k, sample_hash@, size),
            },
    {
        let mut i: usize = 0;
        while i < self.rows.len()
            invariant
                i <= self.rows@.len(),
                forall|k: int| k < i ==> !#[trigger] self.is_at(k, sample_hash@, size),
            decreases self.rows.len() - i,
        {
            if same_text(self.rows[i].sample_hash.as_str(), sample_hash) && self.rows[i].size
                == size {
                return Some(i);
            }
            i += 1;
        }
        None
    }

    /// The entry after an extraction: the name is noted, the time is the new one, and a
    /// password that is not given stays. The confirmed encoding is left alone.
    pub open spec fn extracted(
        old: KnownFile,
        new: KnownFile,
        name_offset: Option<NameOffset>,
        password_id: Option<i64>,
        last_extract_at: String,
    ) -> bool {
        &&& new.sample_hash == old.sample_hash
        &&& new.size == old.size
        &&& new.names_offsets@ == merged(old.names_offsets@, name_offset)
        &&& new.password_id == match password_id {
            Some(id) => Some(id),
            None => old.password_id,
        }
        &&& new.confirmed_encoding == old.confirmed_encoding
        &&& new.last_extract_at == Some(last_extract_at)
    }

    /// The entry after a confirmation: the name is noted and the encoding is the new one. The
    /// password and the time of the last extraction are left alone.
    pub open spec fn confirmed(
        old: KnownFile,
        new: KnownFile,
        name_offset: Option<NameOffset>,
        encoding: String,
    ) -> bool {
        &&& new.sample_hash == old.sample_hash
        &&& new.size == old.size
        &&& new.names_offsets@ == merged(old.names_offsets@, name_offset)
        &&& new.password_id == old.password_id
        &&& new.confirmed_encoding == Some(encoding)
        &&& new.last_extract_at == old.last_extract_at
    }

    /// The entry of a file of which nothing is known.
    pub open spec fn is_blank(f: KnownFile, sample_hash: String, size: i64) -> bool {
        &&& f.sample_hash == sample_hash
        &&& f.size == size
        &&& f.names_offsets@.len() == 0
        &&& f.password_id is None
        &&& f.confirmed_encoding is None
        &&& f.last_extract_at is None
    }

    /// The entries after an extraction: the one of this file says so, or there is a new one for
    /// it behind all others. The others are as they were.
    pub open spec fn with_extraction(
        &self,
        new: KnownFileRepository,
        sample_hash: String,
        size: i64,
        name_offset: Option<NameOffset>,
        password_id: Option<i64>,
        last_extract_at: String,
    ) -> bool {
        &&& forall|k: int| #[trigger]
            self.is_at(k, sample_hash@, size) ==> {
                &&& new.rows@ == self.rows@.update(k, new.rows@[k])
                &&& KnownFileRepository::extracted(
                    self.rows@[k],
                    new.rows@[k],
                    name_offset,
                    password_id,
                    last_extract_at,
                )
            }
        &&& (forall|k: int| !#[trigger] self.is_at(k, sample_hash@, size)) ==> {
            &&& new.rows@.len() == self.rows@.len() + 1
            &&& new.rows@.drop_last() == self.rows@
            &&& exists|blank: KnownFile| #[trigger]
                KnownFileRepository::is_blank(blank, sample_hash, size)
                    && KnownFileRepository::extracted(
                    blank,
                    new.rows@.last(),
                    name_offset,
                    password_id,
                    last_extract_at,
                )
        }
    }

    /// The entries after a confirmation: the one of this file says so, or there is a new one for
    /// it behind all others. The others are as they were.
    pub open spec fn with_confirmation(
        &self,
        new: KnownFileRepository,
        sample_hash: String,
        size: i64,
        name_offset: Option<NameOffset>,
        encoding: String,
    ) -> bool {
        &&& forall|k: int| #[trigger]
            self.is_at(k, sample_hash@, size) ==> {
                &&& new.rows@ == self.rows@.update(k, new.rows@[k])
                &&& KnownFileRepository::confirmed(
                    self.rows@[k],
                    new.rows@[k],
                    name_offset,
                    encoding,
                )
            }
        &&& (forall|k: int| !#[trigger] self.is_at(k, sample_hash@, size)) ==> {
            &&& new.rows@.len() == self.rows@.len() + 1
            &&& new.rows@.drop_last() == self.rows@
            &&& exists|blank: KnownFile| #[trigger]
                KnownFileRepository::is_blank(blank, sample_hash, size)
                    && KnownFileRepository::confirmed(
                    blank,
                    new.rows@.last(),
                    name_offset,
                    encoding,
                )
        }
    }

    /// Takes the entry of a file out, or makes a blank one, and says where it belongs.
    fn take_entry(&mut self, sample_hash: String, size: i64) -> (r: (KnownFile, usize))
        requires
            old(self).wf(),
        ensures
            final(self).wf(),
            r.1 <= final(self).rows@.len(),
            forall|k: int| #[trigger]
                old(self).is_at(k, sample_hash@, size) ==> r.1 == k && r.0 == old(self).rows@[k]
                    && final(self).rows@ == old(self).rows@.remove(k),
            (forall|k: int| !#[trigger] old(self).is_at(k, sample_hash@, size)) ==> r.1
                == old(self).rows@.len() && final(self).rows@ == old(self).rows@
                && KnownFileRepository::is_blank(r.0, sample_hash, size),
            r.0.sample_hash@ == sample_hash@ && r.0.size == size,
            forall|k: int| !#[trigger] final(self).is_at(k, sample_hash@, size),
    {
        let ghost was = *self;
        match self.find(sample_hash.as_str(), size) {
            Some(k) => {
                let row: KnownFile = self.rows.remove(k);
                proof {
                    assert(was.is_at(k as int, sample_hash@, size));
                    assert forall|i: int| #[trigger] was.is_at(i, sample_hash@, size) implies i
                        == k by {
                        if i < k {
                            assert(was.rows@[i].sample_hash@ != was.rows@[k as int].sample_hash@
                                || was.rows@[i].size != was.rows@[k as int].size);
                        } else if k < i {
                            assert(was.rows@[k as int].sample_hash@ != was.rows@[i].sample_hash@
                                || was.rows@[k as int].size != was.rows@[i].size);
                        }
                    }
                    assert forall|i: int| 0 <= i < self.rows@.len() implies #[trigger] self.rows@[i]
                        == was.rows@[if i < k {
                        i
                    } else {
                        i + 1
                    }] by {}
                    assert forall|i: int| !#[trigger] self.is_at(i, sample_hash@, size) by {
                        if self.is_at(i, sample_hash@, size) {
                            let j = if i < k { i } else { i + 1 };
                            assert(was.is_at(j, sample_hash@, size));
                        }
                    }
                }
                (row, k)
            },
            None => {
                let names: Vec<NameOffset> = Vec::new();
                let row = KnownFile {
                    sample_hash,
                    size,
                    names_offsets: names,
                    password_id: None,
                    confirmed_encoding: None,
                    last_extract_at: None,
                };
                (row, self.rows.len())
            },
        }
    }

    fn put_entry(&mut self, at: usize, row: KnownFile)
        requires
            old(self).wf(),
            at <= old(self).rows@.len(),
            forall|k: int| !#[trigger] old(self).is_at(k, row.sample_hash@, row.size),
        ensures
            final(self).wf(),
            final(self).rows@ == old(self).rows@.insert(at as int, row),
    {
        let ghost was = *self;
        self.rows.insert(at, row);
        proof {
            assert forall|i: int, j: int| 0 <= i < j < self.rows@.len() implies (
            #[trigger] self.rows@[i]).sample_hash@ != (#[trigger] self.rows@[j]).sample_hash@
                || self.rows@[i].size != self.rows@[j].size by {
                let a = if i < at { i } else { i - 1 };
                let b = if j < at { j } else { j - 1 };
                if i != at {
                    assert(self.rows@[i] == was.rows@[a]);
                    assert(!was.is_at(a, row.sample_hash@, row.size));
                }
                if j != at {
                    assert(self.rows@[j] == was.rows@[b]);
                    assert(!was.is_at(b, row.sample_hash@, row.size));
                }
            }
        }
    }

    /// Notes that a file was extracted.
    pub fn upsert_extract(
        &mut self,
        sample_hash: String,
        size: i64,
        name_offset: Option<NameOffset>,
        password_id: Option<i64>,
        last_extract_at: String,
    )
        requires
            old(self).wf(),
        ensures
            final(self).wf(),
            old(self).with_extraction(
                *final(self),
                sample_hash,
                size,
                name_offset,
                password_id,
                last_extract_at,
            ),
    {
        let ghost was = *self;
        let (row, at) = self.take_entry(sample_hash, size);
        let ghost before = row;
        let ghost rest = self.rows@;
        let mut row = row;
        merge_name_offset(&mut row.names_offsets, name_offset);
        if password_id.is_some() {
            row.password_id = password_id;
        }
        row.last_extract_at = Some(last_extract_at);
        self.put_entry(at, row);
        proof {
            assert(KnownFileRepository::extracted(
                before,
                row,
                name_offset,
                password_id,
                last_extract_at,
            ));
            assert forall|k: int| #[trigger] was.is_at(k, sample_hash@, size) implies self.rows@
                == was.rows@.update(k, row) by {
                assert(rest.insert(k, row) =~= was.rows@.update(k, row));
            }
            if forall|k: int| !#[trigger] was.is_at(k, sample_hash@, size) {
                assert(self.rows@.drop_last() =~= was.rows@);
                assert(KnownFileRepository::is_blank(before, sample_hash, size));
            }
        }
    }

    /// Notes that the user has confirmed the encoding of a file.
    pub fn upsert_confirmed_encoding(
        &mut self,
        sample_hash: String,
        size: i64,
        name_offset: Option<NameOffset>,
        confirmed_encoding: String,
    )
        requires
            old(self).wf(),
        ensures
            final(self).wf(),
            old(self).with_confirmation(
                *final(self),
                sample_hash,
                size,
                name_offset,
                confirmed_encoding,
            ),
    {
        let ghost was = *self;
        let (row, at) = self.take_entry(sample_hash, size);
        let ghost before = row;
        let ghost rest = self.rows@;
        let mut row = row;
        merge_name_offset(&mut row.names_offsets, name_offset);
        row.confirmed_encoding = Some(confirmed_encoding);
        self.put_entry(at, row);
        proof {
            assert(KnownFileRepository::confirmed(before, row, name_offset, confirmed_encoding));
            assert forall|k: int| #[trigger] was.is_at(k, sample_hash@, size) implies self.rows@
                == was.rows@.update(k, row) by {
                assert(rest.insert(k, row) =~= was.rows@.update(k, row));
            }
            if forall|k: int| !#[trigger] was.is_at(k, sample_hash@, size) {
                assert(self.rows@.drop_last() =~= was.rows@);
                assert(KnownFileRepository::is_blank(before, sample_hash, size));
            }
        }
    }

    /// Forgets which password it was wherever it was this one.
    pub fn clear_password(&mut self, id: i64)
        requires
            old(self).wf(),
        ensures
            final(self).wf(),
            final(self).rows@ == old(self).rows@.map_values(|r: KnownFile| without_password(r, id)),
    {
        let ghost was = self.rows@;
        let ghost clear = |r: KnownFile| without_password(r, id);
        let mut i: usize = 0;
        while i < self.rows.len()
            invariant
                i <= self.rows@.len(),
                self.rows@.len() == was.len(),
                clear == (|r: KnownFile| without_password(r, id)),
                forall|k: int| 0 <= k < i ==> #[trigger] self.rows@[k] == clear(was[k]),
                forall|k: int| i <= k < was.len() ==> #[trigger] self.rows@[k] == was[k],
            decreases self.rows.len() - i,
        {
            let mut row: KnownFile = self.rows.remove(i);
            if row.password_id == Some(id) {
                row.password_id = None;
            }
            self.rows.insert(i, row);
            i += 1;
        }
        proof {
            assert(self.rows@ =~= was.map_values(clear));
            assert forall|a: int, b: int| 0 <= a < b < self.rows@.len() implies (
            #[trigger] self.rows@[a]).sample_hash@ != (#[trigger] self.rows@[b]).sample_hash@
                || self.rows@[a].size != self.rows@[b].size by {
                assert(was[a].sample_hash@ != was[b].sample_hash@ || was[a].size != was[b].size);
            }
        }
    }

    /// The file was extracted, not before the window began.
    pub open spec fn is_recent(f: KnownFile, window_start: Seq<char>) -> bool {
        f.last_extract_at matches Some(at) && !crate::text::text_before(at@, window_start)
    }

    /// Whether a file counts as done.
    pub fn dedup_hit(&self, sample_hash: &str, size: i64, window_start: &str) -> (r: bool)
        requires
            self.wf(),
        ensures
            r == exists|k: int| #[trigger]
                self.is_at(k, sample_hash@, size) && KnownFileRepository::is_recent(
                    self.rows@[k],
                    window_start@,
                ),
    {
        match self.find(sample_hash, size) {
            Some(k) => {
                proof {
                    assert forall|i: int| #[trigger] self.is_at(i, sample_hash@, size) implies i
                        == k by {
                        if i < k {
                            assert(self.rows@[i].sample_hash@ != self.rows@[k as int].sample_hash@
                                || self.rows@[i].size != self.rows@[k as int].size);
                        } else if k < i {
                            assert(self.rows@[k as int].sample_hash@ != self.rows@[i].sample_hash@
                                || self.rows@[k as int].size != self.rows@[i].size);
                        }
                    }
                }
                match &self.rows[k].last_extract_at {
                    Some(at) => !is_text_before(at.as_str(), window_start),
                    None => false,
                }
            },
            None => false,
        }
    }
}

/// An extraction never overwrites a confirmed encoding, and a confirmation never counts as an
/// extraction.
pub proof fn the_two_notes_keep_apart(
    old: KnownFile,
    extracted: KnownFile,
    confirmed: KnownFile,
    name: Option<NameOffset>,
    password_id: Option<i64>,
    at: String,
    encoding: String,
)
    requires
        KnownFileRepository::extracted(old, extracted, name, password_id, at),
        KnownFileRepository::confirmed(old, confirmed, name, encoding),
    ensures
        extracted.confirmed_encoding == old.confirmed_encoding,
        confirmed.last_extract_at == old.last_extract_at,
        confirmed.password_id == old.password_id,
        password_id is None ==> extracted.password_id == old.password_id,
{
}

/// A file whose encoding was only confirmed is not taken for done.
pub proof fn confirmation_is_no_hit(
    blank: KnownFile,
    new: KnownFile,
    hash: String,
    size: i64,
    name: Option<NameOffset>,
    encoding: String,
    window_start: Seq<char>,
)
    requires
        KnownFileRepository::is_blank(blank, hash, size),
        KnownFileRepository::confirmed(blank, new, name, encoding),
    ensures
        !KnownFileRepository::is_recent(new, window_start),
{
}

/// Noting a name twice is noting it once.
pub proof fn names_are_noted_once(names: Seq<NameOffset>, p: NameOffset)
    ensures
        merged(merged(names, Some(p)), Some(p)) == merged(names, Some(p)),
        has_pair(merged(names, Some(p)), p),
{
    let once = merged(names, Some(p));
    if !has_pair(names, p) {
        assert(same_pair(once[names.len() as int], p));
    }
}

/// A file that was extracted is found, with the time and with the password where one is given, and
/// counts as done in every window that began no later. No other file is touched.
pub proof fn extraction_is_found(
    before: KnownFileRepository,
    after: KnownFileRepository,
    hash: String,
    size: i64,
    name: Option<NameOffset>,
    password_id: Option<i64>,
    at: String,
    window_start: Seq<char>,
)
    requires
        after.wf(),
        before.with_extraction(after, hash, size, name, password_id, at),
    ensures
        exists|k: int| #[trigger] after.is_at(k, hash@, size),
        forall|k: int| #[trigger]
            after.is_at(k, hash@, size) ==> {
                &&& after.rows@[k].last_extract_at == Some(at)
                &&& password_id is Some ==> after.rows@[k].password_id == password_id
                &&& name matches Some(p) ==> has_pair(after.rows@[k].names_offsets@, p)
                &&& KnownFileRepository::is_recent(after.rows@[k], window_start)
                    == !crate::text::text_before(at@, window_start)
            },
        forall|k: int|
            0 <= k < before.rows@.len() && !before.is_at(k, hash@, size)
                ==> #[trigger] after.rows@[k] == before.rows@[k],
{
    let i = lemma_one_entry(before, after, hash@, size);
    let row = after.rows@[i];
    let was = if before.is_at(i, hash@, size) {
        before.rows@[i]
    } else {
        choose|blank: KnownFile| #[trigger]
            KnownFileRepository::is_blank(blank, hash, size) && KnownFileRepository::extracted(
                blank,
                after.rows@.last(),
                name,
                password_id,
                at,
            )
    };
    assert(KnownFileRepository::extracted(was, row, name, password_id, at));
    if let Some(p) = name {
        names_are_noted_once(was.names_offsets@, p);
    }
}

/// An encoding that was confirmed is found. No other file is touched.
pub proof fn confirmation_is_found(
    before: KnownFileRepository,
    after: KnownFileRepository,
    hash: String,
    size: i64,
    name: Option<NameOffset>,
    encoding: String,
)
    requires
        after.wf(),
        before.with_confirmation(after, hash, size, name, encoding),
    ensures
        exists|k: int| #[trigger] after.is_at(k, hash@, size),
        forall|k: int| #[trigger]
            after.is_at(k, hash@, size) ==> after.rows@[k].confirmed_encoding == Some(encoding),
        forall|k: int|
            0 <= k < before.rows@.len() && !before.is_at(k, hash@, size)
                ==> #[trigger] after.rows@[k] == before.rows@[k],
{
    let i = lemma_one_entry(before, after, hash@, size);
}

proof fn lemma_one_entry(
    before: KnownFileRepository,
    after: KnownFileRepository,
    hash: Seq<char>,
    size: i64,
) -> (at: int)
    requires
        after.wf(),
        forall|k: int| #[trigger]
            before.is_at(k, hash, size) ==> after.rows@ == before.rows@.update(k, after.rows@[k])
                && after.is_at(k, hash, size),
        (forall|k: int| !#[trigger] before.is_at(k, hash, size)) ==> {
            &&& after.rows@.len() == before.rows@.len() + 1
            &&& after.rows@.drop_last() == before.rows@
            &&& after.is_at(before.rows@.len() as int, hash, size)
        },
    ensures
        after.is_at(at, hash, size),
        forall|k: int| #[trigger] after.is_at(k, hash, size) ==> k == at,
        before.is_at(at, hash, size) || (at == before.rows@.len() && forall|k: int|
            !#[trigger] before.is_at(k, hash, size)),
        forall|k: int|
            0 <= k < before.rows@.len() && !before.is_at(k, hash, size)
                ==> #[trigger] after.rows@[k] == before.rows@[k],
{
    let at = if exists|k: int| #[trigger] before.is_at(k, hash, size) {
        choose|k: int| #[trigger] before.is_at(k, hash, size)
    } else {
        before.rows@.len() as int
    };
    assert(after.is_at(at, hash, size));
    assert forall|k: int| #[trigger] after.is_at(k, hash, size) implies k == at by {
        if k < at {
            assert(after.rows@[k].sample_hash@ != after.rows@[at].sample_hash@ || after.rows@[k].size
                != after.rows@[at].size);
        } else if at < k {
            assert(after.rows@[at].sample_hash@ != after.rows@[k].sample_hash@ || after.rows@[at].size
                != after.rows@[k].size);
        }
    }
    assert forall|k: int|
        0 <= k < before.rows@.len() && !before.is_at(k, hash, size) implies #[trigger] after.rows@[k]
        == before.rows@[k] by {
        if exists|j: int| #[trigger] before.is_at(j, hash, size) {
            assert(after.rows@[k] == before.rows@.update(at, after.rows@[at])[k]);
        } else {
            assert(after.rows@.drop_last()[k] == after.rows@[k]);
        }
    }
    at
}

/// A file counts as extracted before only where it was, and not before the window began. What was
/// only confirmed for it does not make it so.
pub proof fn recent_files_were_extracted(f: KnownFile, window_start: Seq<char>)
    ensures
        f.last_extract_at is None ==> !KnownFileRepository::is_recent(f, window_start),
        f.last_extract_at matches Some(at) ==> (KnownFileRepository::is_recent(f, window_start)
            <==> !crate::text::text_before(at@, window_start)),
        f.last_extract_at matches Some(at) && at@ == window_start ==> KnownFileRepository::is_recent(
            f,
            window_start,
        ),
{
    if let Some(at) = f.last_extract_at {
        crate::text::texts_are_in_line(at@, at@, at@);
    }
}

/// A password that is forgotten stands in no entry any more; nothing else of an entry changes.
pub proof fn forgotten_password_leaves_the_entry(f: KnownFile, id: i64)
    ensures
        without_password(f, id).password_id != Some(id),
        f.password_id != Some(id) ==> without_password(f, id) == f,
        without_password(f, id).sample_hash == f.sample_hash,
        without_password(f, id).confirmed_encoding == f.confirmed_encoding,
        without_password(f, id).last_extract_at == f.last_extract_at,
        without_password(f, id).names_offsets == f.names_offsets,
{
}

} // verus!
