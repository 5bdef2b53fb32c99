//! The log of the encodings that were detected in archives.

use vstd::prelude::*;
use crate::order::{limit_places, rank, Ranked};
use crate::text::same_text;

verus! {

/// An encoding that was detected in an archive, to be logged. Its confidence is kept by its bits.
#[derive(Debug)]
pub struct NewEncodingDetection {
    pub archive_path_hash: String,
    pub archive_format: Option<String>,
    pub selected_encoding: String,
    pub confidence: u32,
    pub user_corrected: bool,
    pub candidates_json: String,
    pub created_at: String,
}

/// An encoding that was detected in an archive.
#[derive(Debug)]
pub struct EncodingDetectionRecord {
    pub id: i64,
    pub archive_path_hash: String,
    pub archive_format: Option<String>,
    pub selected_encoding: String,
    pub confidence: u32,
    pub user_corrected: bool,
    pub candidates_json: String,
    pub created_at: String,
}

impl EncodingDetectionRecord {
    /// The row of a detection.
    pub open spec fn of(id: i64, new: NewEncodingDetection) -> EncodingDetectionRecord {
        EncodingDetectionRecord {
            id,
            archive_path_hash: new.archive_path_hash,
            archive_format: new.archive_format,
            selected_encoding: new.selected_encoding,
            confidence: new.confidence,
            user_corrected: new.user_corrected,
            candidates_json: new.candidates_json,
            created_at: new.created_at,
        }
    }
}

/// What was detected last goes first.
impl Ranked for EncodingDetectionRecord {
    open spec fn precedes(&self, other: &EncodingDetectionRecord) -> bool {
        self.id > other.id
    }

    fn comes_before(&self, other: &EncodingDetectionRecord) -> (r: bool) {
        self.id > other.id
    }

    proof fn order_is_strict(
        a: &EncodingDetectionRecord,
        b: &EncodingDetectionRecord,
        c: &EncodingDetectionRecord,
    ) {
    }
}

/// These are the rows of this archive.
pub open spec fn of_archive(rows: Seq<EncodingDetectionRecord>, hash: Seq<char>) -> Seq<bool> {
    rows.map_values(|d: EncodingDetectionRecord| d.archive_path_hash@ == hash)
}

/// The whole log.
#[derive(Debug)]
pub struct EncodingDetectionRepository {
    pub rows: Vec<EncodingDetectionRecord>,
    pub last_id: i64,
}

impl EncodingDetectionRepository {
    /// No row has a number above the last one that was given out.
    pub open spec fn is_numbered(&self) -> bool {
        forall|k: int| 0 <= k < self.rows@.len() ==> (#[trigger] self.rows@[k]).id <= self.last_id
    }

    pub fn new() -> (r: EncodingDetectionRepository)
        ensures
            r.is_numbered(),
            r.rows@.len() == 0,
            r.last_id == 0,
    {
        EncodingDetectionRepository { rows: Vec::new(), last_id: 0 }
    }

    /// Logs a detection, and gives its number.
    pub fn insert(&mut self, new: NewEncodingDetection) -> (r: i64)
        requires
            old(self).last_id < i64::MAX,
        ensures
            r == old(self).last_id + 1,
            final(self).last_id == r,
            final(self).rows@ == old(self).rows@.push(EncodingDetectionRecord::of(r, new)),
            old(self).is_numbered() ==> final(self).is_numbered(),
    {
        let id: i64 = self.last_id + 1;
        self.last_id = id;
        self.rows.push(
            EncodingDetectionRecord {
                id,
                archive_path_hash: new.archive_path_hash,
                archive_format: new.archive_format,
                selected_encoding: new.selected_encoding,
                confidence: new.confidence,
                user_corrected: new.user_corrected,
                candidates_json: new.candidates_json,
                created_at: new.created_at,
            },
        );
        id
    }

    /// What was detected last in an archive.
    pub fn recent_by_hash(&self, archive_path_hash: &str, limit: usize) -> (r: Vec<usize>)
        ensures
            exists|places: Seq<usize>| #[trigger]
                crate::order::ranks(places, self.rows@, of_archive(self.rows@, archive_path_hash@))
                    && r@ == crate::order::limited(places, limit),
    {
        let mut wanted: Vec<bool> = Vec::new();
        let mut i: usize = 0;
        while i < self.rows.len()
            invariant
                i <= self.rows@.len(),
                wanted@.len() == i,
                forall|k: int|
                    0 <= k < i ==> #[trigger] wanted@[k] == (self.rows@[k].archive_path_hash@
                        == archive_path_hash@),
            decreases self.rows.len() - i,
        {
            wanted.push(same_text(self.rows[i].archive_path_hash.as_str(), archive_path_hash));
            i += 1;
        }
        assert(wanted@ =~= of_archive(self.rows@, archive_path_hash@));
        let places = rank(&self.rows, &wanted);
        let ghost sorted = places@;
        assert(crate::order::ranks(sorted, self.rows@, of_archive(self.rows@, archive_path_hash@)));
        limit_places(places, limit)
    }
}

/// What is logged last about an archive is the first that is given of it.
pub proof fn logged_detection_is_most_recent(
    repository: EncodingDetectionRepository,
    row: EncodingDetectionRecord,
    places: Seq<usize>,
)
    requires
        repository.is_numbered(),
        row.id == repository.last_id + 1,
        crate::order::ranks(
            places,
            repository.rows@.push(row),
            of_archive(repository.rows@.push(row), row.archive_path_hash@),
        ),
    ensures
        places.len() > 0,
        places[0] == repository.rows@.len(),
{
    let before = repository.rows@;
    let wanted = of_archive(before.push(row), row.archive_path_hash@);
    assert(wanted.last());
    assert forall|k: int| 0 <= k < before.len() implies row.precedes(&#[trigger] before[k]) by {}
    crate::order::added_row_is_listed(places, before, row, wanted);
}

/// Detections are listed by falling number, the last first.
pub proof fn last_detections_come_first(
    rows: Seq<EncodingDetectionRecord>,
    wanted: Seq<bool>,
    places: Seq<usize>,
    i: int,
    j: int,
)
    requires
        crate::order::ranks(places, rows, wanted),
        0 <= i < j < places.len(),
    ensures
        rows[places[i] as int].id >= rows[places[j] as int].id,
{
    assert(!rows[places[j] as int].precedes(&rows[places[i] as int]));
}

} // verus!
