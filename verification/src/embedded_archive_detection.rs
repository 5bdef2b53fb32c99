//! The log of the archives that scans found inside files.

use vstd::prelude::*;
use crate::order::{limit_places, rank, Ranked};
use crate::text::same_text;

verus! {

/// An archive that a scan found inside a file, to be logged. Its confidence is kept by its bits.
#[derive(Debug)]
pub struct NewEmbeddedArchiveDetection {
    pub file_path_hash: String,
    pub format: String,
    pub offset: u64,
    pub confidence: u32,
    pub size_hint: Option<u64>,
    pub created_at: String,
}

/// An archive that a scan found inside a file.
#[derive(Debug)]
pub struct EmbeddedArchiveDetectionRecord {
    pub id: i64,
    pub file_path_hash: String,
    pub format: String,
    pub offset: u64,
    pub confidence: u32,
    pub size_hint: Option<u64>,
    pub created_at: String,
}

impl EmbeddedArchiveDetectionRecord {
    /// The row of a detection.
    pub open spec fn of(id: i64, new: NewEmbeddedArchiveDetection) -> EmbeddedArchiveDetectionRecord {
        EmbeddedArchiveDetectionRecord {
            id,
            file_path_hash: new.file_path_hash,
            format: new.format,
            offset: new.offset,
            confidence: new.confidence,
            size_hint: new.size_hint,
            created_at: new.created_at,
        }
    }
}

/// What was found last goes first.
impl Ranked for EmbeddedArchiveDetectionRecord {
    open spec fn precedes(&self, other: &EmbeddedArchiveDetectionRecord) -> bool {
        self.id > other.id
    }

    fn comes_before(&self, other: &EmbeddedArchiveDetectionRecord) -> (r: bool) {
        self.id > other.id
    }

    proof fn order_is_strict(
        a: &EmbeddedArchiveDetectionRecord,
        b: &EmbeddedArchiveDetectionRecord,
        c: &EmbeddedArchiveDetectionRecord,
    ) {
    }
}

/// These are the rows of this file.
pub open spec fn of_file(rows: Seq<EmbeddedArchiveDetectionRecord>, hash: Seq<char>) -> Seq<bool> {
    rows.map_values(|d: EmbeddedArchiveDetectionRecord| d.file_path_hash@ == hash)
}

/// The whole log.
#[derive(Debug)]
pub struct EmbeddedArchiveDetectionRepository {
    pub rows: Vec<EmbeddedArchiveDetectionRecord>,
    pub last_id: i64,
}

impl EmbeddedArchiveDetectionRepository {
    pub fn new() -> (r: EmbeddedArchiveDetectionRepository)
        ensures
            r.rows@.len() == 0,
            r.last_id == 0,
    {
        EmbeddedArchiveDetectionRepository { rows: Vec::new(), last_id: 0 }
    }

    /// The rows of some findings, numbered from `id` on.
    pub open spec fn numbered(id: int, findings: Seq<NewEmbeddedArchiveDetection>) -> Seq<
        EmbeddedArchiveDetectionRecord,
    > {
        Seq::new(
            findings.len(),
            |i: int| EmbeddedArchiveDetectionRecord::of((id + i) as i64, findings[i]),
        )
    }

    /// Logs all findings of a scan, and says how many they are.
    pub fn insert_many(&mut self, findings: Vec<NewEmbeddedArchiveDetection>) -> (r: usize)
        requires
            old(self).last_id + findings@.len() <= i64::MAX,
        ensures
            r == findings@.len(),
            final(self).last_id == old(self).last_id + findings@.len(),
            final(self).rows@ == old(self).rows@ + EmbeddedArchiveDetectionRepository::numbered(
                old(self).last_id + 1,
                findings@,
            ),
    {
        let ghost all = findings@;
        let ghost rows = self.rows@;
        let ghost id = self.last_id + 1;
        let count: usize = findings.len();
        let mut rest: Vec<NewEmbeddedArchiveDetection> = findings;
        let mut turned: Vec<NewEmbeddedArchiveDetection> = Vec::new();
        while rest.len() > 0
            invariant
                rest@.len() + turned@.len() == all.len(),
                forall|i: int| 0 <= i < rest@.len() ==> #[trigger] rest@[i] == all[i],
                forall|i: int|
                    0 <= i < turned@.len() ==> #[trigger] turned@[i] == all[all.len() - 1 - i],
            decreases rest.len(),
        {
            if let Some(finding) = rest.pop() {
                turned.push(finding);
            }
        }
        assert(self.rows@ =~= rows + EmbeddedArchiveDetectionRepository::numbered(
            id,
            all.take(0),
        ));
        while turned.len() > 0
            invariant
                turned@.len() <= all.len(),
                forall|i: int|
                    0 <= i < turned@.len() ==> #[trigger] turned@[i] == all[all.len() - 1 - i],
                id + all.len() <= i64::MAX + 1,
                self.last_id == id - 1 + all.len() - turned@.len(),
                self.rows@ == rows + EmbeddedArchiveDetectionRepository::numbered(
                    id,
                    all.take(all.len() - turned@.len()),
                ),
            decreases turned.len(),
        {
            let ghost done = all.len() - turned@.len();
            if let Some(new) = turned.pop() {
                self.last_id += 1;
                self.rows.push(
                    EmbeddedArchiveDetectionRecord {
                        id: self.last_id,
                        file_path_hash: new.file_path_hash,
                        format: new.format,
                        offset: new.offset,
                        confidence: new.confidence,
                        size_hint: new.size_hint,
                        created_at: new.created_at,
                    },
                );
                assert(self.rows@ =~= rows + EmbeddedArchiveDetectionRepository::numbered(
                    id,
                    all.take(done + 1),
                ));
            }
        }
        assert(all.take(all.len() as int) =~= all);
        count
    }

    /// What was found last in a file.
    pub fn recent_by_hash(&self, file_path_hash: &str, limit: usize) -> (r: Vec<usize>)
        ensures
            exists|places: Seq<usize>| #[trigger]
                crate::order::ranks(places, self.rows@, of_file(self.rows@, file_path_hash@)) && r@
                    == crate::order::limited(places, limit),
    {
        let mut wanted: Vec<bool> = Vec::new();
        let mut i: usize = 0;
        while i < self.rows.len()
            invariant
                i <= self.rows@.len(),
                wanted@.len() == i,
                forall|k: int|
                    0 <= k < i ==> #[trigger] wanted@[k] == (self.rows@[k].file_path_hash@
                        == file_path_hash@),
            decreases self.rows.len() - i,
        {
            wanted.push(same_text(self.rows[i].file_path_hash.as_str(), file_path_hash));
            i += 1;
        }
        assert(wanted@ =~= of_file(self.rows@, file_path_hash@));
        let places = rank(&self.rows, &wanted);
        let ghost sorted = places@;
        assert(crate::order::ranks(sorted, self.rows@, of_file(self.rows@, file_path_hash@)));
        limit_places(places, limit)
    }
}

/// All findings of a scan are given for their file, whatever was logged before.
pub proof fn logged_findings_are_given(
    before: Seq<EmbeddedArchiveDetectionRecord>,
    id: int,
    findings: Seq<NewEmbeddedArchiveDetection>,
    places: Seq<usize>,
    i: int,
)
    requires
        0 <= i < findings.len(),
        crate::order::ranks(
            places,
            before + EmbeddedArchiveDetectionRepository::numbered(id, findings),
            of_file(
                before + EmbeddedArchiveDetectionRepository::numbered(id, findings),
                findings[i].file_path_hash@,
            ),
        ),
    ensures
        exists|p: int| 0 <= p < places.len() && #[trigger] places[p] == before.len() + i,
{
    let all = before + EmbeddedArchiveDetectionRepository::numbered(id, findings);
    let k = before.len() + i;
    assert(all[k].file_path_hash@ == findings[i].file_path_hash@);
    assert(of_file(all, findings[i].file_path_hash@)[k]);
}

/// Findings are listed by falling number, the last first.
pub proof fn last_findings_come_first(
    rows: Seq<EmbeddedArchiveDetectionRecord>,
    wanted: Seq<bool>,
    places: Seq<usize>,
    i: int,
    j: int,
)
    requires
        crate::order::ranks(places, rows, wanted),
        0 <= i < j < places.len(),
    ensures
        rows[places[i] as int].id >= rows[places[j] as int].id,
{
    assert(!rows[places[j] as int].precedes(&rows[places[i] as int]));
}

} // verus!
