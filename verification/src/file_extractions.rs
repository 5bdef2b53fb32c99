//! The log of what was done to which file.
//!
//! A row that stands for a node of an execution follows that node until it has ended. Nothing else
//! in the log changes but that a password is forgotten.

use vstd::prelude::*;
use crate::history::FileExtractionRow;
use crate::order::{keep_rows, limit_places, rank, Ranked};
use crate::task_execution::NodeRecord;
use crate::text::{copy_opt, same_text};

verus! {

/// Something that was done to a file, to be logged.
#[derive(Debug)]
pub struct NewFileExtraction {
    pub task_id: String,
    pub row: FileExtractionRow,
    pub created_at: String,
}

/// Something that was done to a file.
#[derive(Debug)]
pub struct FileExtractionRecord {
    pub id: i64,
    pub task_id: String,
    pub node_id: Option<String>,
    pub row: FileExtractionRow,
    pub created_at: String,
}

/// What was done last goes first.
impl Ranked for FileExtractionRecord {
    open spec fn precedes(&self, other: &FileExtractionRecord) -> bool {
        self.id > other.id
    }

    fn comes_before(&self, other: &FileExtractionRecord) -> (r: bool) {
        self.id > other.id
    }

    proof fn order_is_strict(
        a: &FileExtractionRecord,
        b: &FileExtractionRecord,
        c: &FileExtractionRecord,
    ) {
    }
}

/// What to look for in the log. What is not given does not matter.
#[derive(Debug)]
pub struct Filter<'a> {
    pub status: Option<&'a str>,
    pub reason: Option<&'a str>,
}

/// The row is one that is looked for.
pub open spec fn passes(f: Filter, r: FileExtractionRecord) -> bool {
    &&& f.status matches Some(s) ==> r.row.status@ == s@
    &&& f.reason matches Some(s) ==> crate::text::opt_text(r.row.reason) == Some(s@)
}

/// These are the rows that are looked for.
pub open spec fn passing(f: Filter, rows: Seq<FileExtractionRecord>) -> Seq<bool> {
    rows.map_values(|r: FileExtractionRecord| passes(f, r))
}

/// The number of a row, by which the log of a task is listed.
#[derive(Debug)]
pub struct LogNumber {
    pub id: i64,
}

/// What was done first goes first.
impl Ranked for LogNumber {
    open spec fn precedes(&self, other: &LogNumber) -> bool {
        self.id < other.id
    }

    fn comes_before(&self, other: &LogNumber) -> (r: bool) {
        self.id < other.id
    }

    proof fn order_is_strict(a: &LogNumber, b: &LogNumber, c: &LogNumber) {
    }
}

/// The numbers of the rows.
pub open spec fn numbers(rows: Seq<FileExtractionRecord>) -> Seq<LogNumber> {
    rows.map_values(|r: FileExtractionRecord| LogNumber { id: r.id })
}

/// These are the rows of the one task.
pub open spec fn of_task(rows: Seq<FileExtractionRecord>, task_id: Seq<char>) -> Seq<bool> {
    rows.map_values(|r: FileExtractionRecord| r.task_id@ == task_id)
}

/// Both rows are those of one node.
pub open spec fn of_one_node(a: FileExtractionRecord, b: FileExtractionRecord) -> bool {
    a.node_id matches Some(node) && b.is_of_node(a.task_id@, node@)
}

/// The row tells what is stored about the node. What is known only of a node that has ended is
/// left out until it has.
pub open spec fn tells_node(row: FileExtractionRow, node: NodeRecord) -> bool {
    &&& row.input_path == node.input_path
    &&& row.status@ == node.status.text()
    &&& row.reason == node.reason
    &&& match node.facts {
        Some(f) => {
            &&& row.sample_hash == f.sample_hash
            &&& row.file_size == f.file_size
            &&& row.offset == f.embedded_offset
            &&& row.output_path == f.output_path
            &&& row.has_password == f.has_password
            &&& row.password_id == f.password_id
            &&& row.encoding == f.encoding
            &&& row.encoding_corrected == f.encoding_corrected
        },
        None => {
            &&& row.sample_hash is None
            &&& row.file_size is None
            &&& row.offset is None
            &&& row.output_path is None
            &&& !row.has_password
            &&& row.password_id is None
            &&& row.encoding is None
            &&& !row.encoding_corrected
        },
    }
}

/// The password that a node is stored with.
pub open spec fn node_password(node: NodeRecord) -> Option<i64> {
    match node.facts {
        Some(f) => f.password_id,
        None => None,
    }
}

impl FileExtractionRecord {
    /// This is the row of the node.
    pub open spec fn is_of_node(self, task_id: Seq<char>, node_id: Seq<char>) -> bool {
        self.task_id@ == task_id && crate::text::opt_text(self.node_id) == Some(node_id)
    }

    /// The first row of a node.
    pub open spec fn is_first(self, id: i64, task_id: Seq<char>, node: NodeRecord, at: Seq<char>) -> bool {
        &&& self.id == id
        &&& self.is_of_node(task_id, node.node_id@)
        &&& tells_node(self.row, node)
        &&& self.row.damaged_volumes_json is None
        &&& self.row.test_report_json is None
        &&& self.created_at@ == at
    }

    /// The row, when it tells of the node anew.
    pub open spec fn told(self, new: FileExtractionRecord, node: NodeRecord) -> bool {
        &&& new == (FileExtractionRecord { row: new.row, ..self })
        &&& tells_node(new.row, node)
        &&& new.row.damaged_volumes_json == self.row.damaged_volumes_json
        &&& new.row.test_report_json == self.row.test_report_json
    }
}

fn node_row(node: &NodeRecord) -> (r: FileExtractionRow)
    ensures
        tells_node(r, *node),
        r.damaged_volumes_json is None,
        r.test_report_json is None,
{
    let mut row = FileExtractionRow {
        input_path: node.input_path.clone(),
        sample_hash: None,
        file_size: None,
        offset: None,
        output_path: None,
        has_password: false,
        password_id: None,
        status: node.status.as_str().to_string(),
        reason: copy_opt(&node.reason),
        encoding: None,
        encoding_corrected: false,
        damaged_volumes_json: None,
        test_report_json: None,
    };
    if let Some(f) = &node.facts {
        row.sample_hash = copy_opt(&f.sample_hash);
        row.file_size = f.file_size;
        row.offset = f.embedded_offset;
        row.output_path = copy_opt(&f.output_path);
        row.has_password = f.has_password;
        row.password_id = f.password_id;
        row.encoding = copy_opt(&f.encoding);
        row.encoding_corrected = f.encoding_corrected;
    }
    row
}

/// The row without this password.
pub open spec fn without_password(r: FileExtractionRecord, id: i64) -> FileExtractionRecord {
    if r.row.password_id == Some(id) {
        FileExtractionRecord { row: FileExtractionRow { password_id: None, ..r.row }, ..r }
    } else {
        r
    }
}

/// The whole log.
#[derive(Debug)]
pub struct FileExtractionRepository {
    pub rows: Vec<FileExtractionRecord>,
    pub last_id: i64,
}

impl FileExtractionRepository {
    /// No row has a number above the last one that was given out.
    pub open spec fn is_numbered(&self) -> bool {
        forall|k: int| 0 <= k < self.rows@.len() ==> (#[trigger] self.rows@[k]).id <= self.last_id
    }

    pub fn new() -> (r: FileExtractionRepository)
        ensures
            r.is_numbered(),
            r.is_one_per_node(),
            r.rows@.len() == 0,
            r.last_id == 0,
    {
        FileExtractionRepository { rows: Vec::new(), last_id: 0 }
    }

    /// Logs one thing, and gives its number.
    pub fn insert(&mut self, new: NewFileExtraction) -> (r: i64)
        requires
            old(self).last_id < i64::MAX,
        ensures
            r == old(self).last_id + 1,
            final(self).last_id == r,
            final(self).rows@ == old(self).rows@.push(
                FileExtractionRecord {
                    id: r,
                    task_id: new.task_id,
                    node_id: None,
                    row: new.row,
                    created_at: new.created_at,
                },
            ),
            old(self).is_numbered() ==> final(self).is_numbered(),
            old(self).is_one_per_node() ==> final(self).is_one_per_node(),
    {
        let id: i64 = self.last_id + 1;
        self.last_id = id;
        self.rows.push(
            FileExtractionRecord {
                id,
                task_id: new.task_id,
                node_id: None,
                row: new.row,
                created_at: new.created_at,
            },
        );
        id
    }

    /// The row at `k` is that of this node.
    pub open spec fn is_node_at(&self, k: int, task_id: Seq<char>, node_id: Seq<char>) -> bool {
        0 <= k < self.rows@.len() && self.rows@[k].is_of_node(task_id, node_id)
    }

    /// No two rows are those of one node.
    pub open spec fn is_one_per_node(&self) -> bool {
        forall|i: int, j: int|
            0 <= i < j < self.rows@.len() ==> !#[trigger] of_one_node(self.rows@[i], self.rows@[j])
    }

    /// The log follows the node: its row, or a new one where it has none yet, tells what is
    /// stored about the node.
    pub open spec fn with_node(
        &self,
        new: FileExtractionRepository,
        task_id: Seq<char>,
        node: NodeRecord,
        at: Seq<char>,
    ) -> bool {
        &&& forall|k: int| #[trigger]
            self.is_node_at(k, task_id, node.node_id@) ==> {
                &&& new.rows@ == self.rows@.update(k, new.rows@[k])
                &&& self.rows@[k].told(new.rows@[k], node)
                &&& new.last_id == self.last_id
            }
        &&& (forall|k: int| !#[trigger] self.is_node_at(k, task_id, node.node_id@)) ==> {
            &&& new.rows@.len() == self.rows@.len() + 1
            &&& new.rows@.drop_last() == self.rows@
            &&& new.last_id == self.last_id + 1
            &&& new.rows@.last().is_first(new.last_id, task_id, node, at)
        }
    }

    /// Where the row of this node is.
    pub fn find_node(&self, task_id: &str, node_id: &str) -> (r: Option<usize>)
        ensures
            match r {
                Some(k) => self.is_node_at(k as int, task_id@, node_id@),
                None => forall|k: int| !#[trigger] self.is_node_at(k, task_id@, node_id@),
            },
    {
        let mut i: usize = 0;
        while i < self.rows.len()
            invariant
                i <= self.rows@.len(),
                forall|k: int| k < i ==> !#[trigger] self.is_node_at(k, task_id@, node_id@),
            decreases self.rows.len() - i,
        {
            let of_node = match &self.rows[i].node_id {
                Some(id) => same_text(id.as_str(), node_id),
                None => false,
            };
            if of_node && same_text(self.rows[i].task_id.as_str(), task_id) {
                return Some(i);
            }
            i += 1;
        }
        None
    }

    /// Logs how far a node of a task has come.
    pub fn note_node(&mut self, task_id: &str, node: &NodeRecord, at: &str)
        requires
            old(self).is_numbered(),
            old(self).is_one_per_node(),
            old(self).last_id < i64::MAX,
        ensures
            final(self).is_numbered(),
            final(self).is_one_per_node(),
            old(self).with_node(*final(self), task_id@, *node, at@),
            exists|k: int| #[trigger] final(self).is_node_at(k, task_id@, node.node_id@),
    {
        let ghost was = *self;
        let told = node_row(node);
        match self.find_node(task_id, node.node_id.as_str()) {
            Some(k) => {
                let mut record: FileExtractionRecord = self.rows.remove(k);
                record.row = FileExtractionRow {
                    damaged_volumes_json: record.row.damaged_volumes_json,
                    test_report_json: record.row.test_report_json,
                    ..told
                };
                self.rows.insert(k, record);
                assert(self.rows@ =~= was.rows@.update(k as int, record));
                proof {
                    assert(self.is_node_at(k as int, task_id@, node.node_id@));
                    assert forall|i: int| #[trigger] was.is_node_at(i, task_id@, node.node_id@) implies i
                        == k by {
                        if i < k {
                            assert(of_one_node(was.rows@[i], was.rows@[k as int]));
                        } else if k < i {
                            assert(of_one_node(was.rows@[k as int], was.rows@[i]));
                        }
                    }
                    assert forall|i: int, j: int| 0 <= i < j < self.rows@.len() implies !#[trigger] of_one_node(
                        self.rows@[i],
                        self.rows@[j],
                    ) by {
                        assert(!of_one_node(was.rows@[i], was.rows@[j]));
                    }
                    assert forall|i: int| 0 <= i < self.rows@.len() implies (
                    #[trigger] self.rows@[i]).id <= self.last_id by {
                        assert(was.rows@[i].id <= was.last_id);
                    }
                }
            },
            None => {
                let id: i64 = self.last_id + 1;
                self.last_id = id;
                let record = FileExtractionRecord {
                    id,
                    task_id: task_id.to_string(),
                    node_id: Some(node.node_id.clone()),
                    row: told,
                    created_at: at.to_string(),
                };
                self.rows.push(record);
                assert(self.rows@.drop_last() =~= was.rows@);
                proof {
                    assert(self.is_node_at(was.rows@.len() as int, task_id@, node.node_id@));
                    assert forall|i: int, j: int| 0 <= i < j < self.rows@.len() implies !#[trigger] of_one_node(
                        self.rows@[i],
                        self.rows@[j],
                    ) by {
                        if j < was.rows@.len() {
                            assert(!of_one_node(was.rows@[i], was.rows@[j]));
                        } else {
                            assert(!was.is_node_at(i, task_id@, node.node_id@));
                        }
                    }
                }
            },
        }
    }

    /// Forgets which password it was wherever it was this one.
    pub fn clear_password(&mut self, id: i64)
        ensures
            final(self).rows@ == old(self).rows@.map_values(|r: FileExtractionRecord| without_password(r, id)),
            final(self).last_id == old(self).last_id,
            old(self).is_numbered() ==> final(self).is_numbered(),
            old(self).is_one_per_node() ==> final(self).is_one_per_node(),
    {
        let ghost was = self.rows@;
        let ghost clear = |r: FileExtractionRecord| without_password(r, id);
        let mut i: usize = 0;
        while i < self.rows.len()
            invariant
                i <= self.rows@.len(),
                self.rows@.len() == was.len(),
                clear == (|r: FileExtractionRecord| without_password(r, id)),
                forall|k: int| 0 <= k < i ==> #[trigger] self.rows@[k] == clear(was[k]),
                forall|k: int| i <= k < was.len() ==> #[trigger] self.rows@[k] == was[k],
                self.last_id == old(self).last_id,
            decreases self.rows.len() - i,
        {
            let mut row: FileExtractionRecord = self.rows.remove(i);
            if row.row.password_id == Some(id) {
                row.row.password_id = None;
            }
            self.rows.insert(i, row);
            i += 1;
        }
        assert(self.rows@ =~= was.map_values(clear));
        proof {
            assert forall|k: int| 0 <= k < self.rows@.len() && old(self).is_numbered() implies (
            #[trigger] self.rows@[k]).id <= self.last_id by {
                assert(old(self).rows@[k].id <= old(self).last_id);
            }
            assert forall|i: int, j: int|
                0 <= i < j < self.rows@.len() && old(self).is_one_per_node() implies !#[trigger] of_one_node(
                self.rows@[i],
                self.rows@[j],
            ) by {
                assert(!of_one_node(was[i], was[j]));
            }
        }
    }

    /// Drops what belongs to a task, together with the task. The rest stays in its order, and no
    /// number is given out again.
    pub fn drop_task(&mut self, task_id: &str)
        ensures
            final(self).rows@ == old(self).rows@.filter(|e: FileExtractionRecord| e.task_id@ != task_id@),
            forall|k: int|
                0 <= k < final(self).rows@.len() ==> (#[trigger] final(self).rows@[k]).task_id@
                    != task_id@,
            final(self).last_id == old(self).last_id,
            old(self).is_numbered() ==> final(self).is_numbered(),
            old(self).is_one_per_node() ==> final(self).is_one_per_node(),
    {
        let ghost before = self.rows@;
        let mut others: Vec<bool> = Vec::new();
        let mut i: usize = 0;
        while i < self.rows.len()
            invariant
                i <= self.rows@.len(),
                others@.len() == i,
                forall|k: int|
                    0 <= k < i ==> #[trigger] others@[k] == (self.rows@[k].task_id@ != task_id@),
            decreases self.rows.len() - i,
        {
            others.push(!same_text(self.rows[i].task_id.as_str(), task_id));
            i += 1;
        }
        keep_rows(&mut self.rows, &others);
        proof {
            let keep = |e: FileExtractionRecord| e.task_id@ != task_id@;
            assert(self.rows@ == before.filter(keep));
            crate::order::lemma_kept_rows(before, keep);
            assert forall|k: int| 0 <= k < self.rows@.len() && old(self).is_numbered() implies (
            #[trigger] self.rows@[k]).id <= self.last_id by {
                let j = choose|j: int| 0 <= j < before.len() && before[j] == before.filter(keep)[k];
                assert(old(self).rows@[j].id <= old(self).last_id);
            }
            if old(self).is_one_per_node() {
                let clash = |a: FileExtractionRecord, b: FileExtractionRecord| of_one_node(a, b);
                crate::order::lemma_kept_apart(before, keep, clash);
                assert forall|i: int, j: int| 0 <= i < j < self.rows@.len() implies !#[trigger] of_one_node(
                    self.rows@[i],
                    self.rows@[j],
                ) by {
                    assert(!clash(before.filter(keep)[i], before.filter(keep)[j]));
                }
            }
        }
    }

    /// What a task did, by rising number: the oldest first.
    pub fn list_by_task(&self, task_id: &str) -> (r: Vec<usize>)
        ensures
            crate::order::ranks(r@, numbers(self.rows@), of_task(self.rows@, task_id@)),
    {
        let mut ids: Vec<LogNumber> = Vec::new();
        let mut wanted: Vec<bool> = Vec::new();
        let mut i: usize = 0;
        while i < self.rows.len()
            invariant
                i <= self.rows@.len(),
                ids@.len() == i,
                wanted@.len() == i,
                forall|k: int| 0 <= k < i ==> (#[trigger] ids@[k]).id == self.rows@[k].id,
                forall|k: int|
                    0 <= k < i ==> #[trigger] wanted@[k] == (self.rows@[k].task_id@ == task_id@),
            decreases self.rows.len() - i,
        {
            ids.push(LogNumber { id: self.rows[i].id });
            wanted.push(same_text(self.rows[i].task_id.as_str(), task_id));
            i += 1;
        }
        assert(ids@ =~= numbers(self.rows@));
        assert(wanted@ =~= of_task(self.rows@, task_id@));
        rank(&ids, &wanted)
    }

    /// What was done last, of what is looked for.
    pub fn select(&self, filter: &Filter, limit: usize) -> (r: Vec<usize>)
        ensures
            exists|places: Seq<usize>| #[trigger]
                crate::order::ranks(places, self.rows@, passing(*filter, self.rows@)) && r@
                    == crate::order::limited(places, limit),
    {
        let mut wanted: Vec<bool> = Vec::new();
        let mut i: usize = 0;
        while i < self.rows.len()
            invariant
                i <= self.rows@.len(),
                wanted@.len() == i,
                forall|k: int|
                    0 <= k < i ==> #[trigger] wanted@[k] == passes(*filter, self.rows@[k]),
            decreases self.rows.len() - i,
        {
            let row = &self.rows[i].row;
            let by_status = match filter.status {
                Some(s) => same_text(row.status.as_str(), s),
                None => true,
            };
            let by_reason = match filter.reason {
                Some(s) => match &row.reason {
                    Some(reason) => same_text(reason.as_str(), s),
                    None => false,
                },
                None => true,
            };
            wanted.push(by_status && by_reason);
            i += 1;
        }
        assert(wanted@ =~= passing(*filter, self.rows@));
        let places = rank(&self.rows, &wanted);
        let ghost sorted = places@;
        assert(crate::order::ranks(sorted, self.rows@, passing(*filter, self.rows@)));
        limit_places(places, limit)
    }

    /// What was done last.
    pub fn recent(&self, limit: usize) -> (r: Vec<usize>)
        ensures
            exists|places: Seq<usize>| #[trigger]
                crate::order::ranks(
                    places,
                    self.rows@,
                    passing((Filter { status: None, reason: None }), self.rows@),
                ) && r@ == crate::order::limited(places, limit),
    {
        self.select(&Filter { status: None, reason: None }, limit)
    }

    /// What ended in this way.
    pub fn list_by_status(&self, status: &str, limit: usize) -> (r: Vec<usize>)
        ensures
            exists|places: Seq<usize>| #[trigger]
                crate::order::ranks(
                    places,
                    self.rows@,
                    passing((Filter { status: Some(status), reason: None }), self.rows@),
                ) && r@ == crate::order::limited(places, limit),
    {
        self.select(&Filter { status: Some(status), reason: None }, limit)
    }

    /// What ended for this reason.
    pub fn list_by_reason(&self, reason: &str, limit: usize) -> (r: Vec<usize>)
        ensures
            exists|places: Seq<usize>| #[trigger]
                crate::order::ranks(
                    places,
                    self.rows@,
                    passing((Filter { status: None, reason: Some(reason) }), self.rows@),
                ) && r@ == crate::order::limited(places, limit),
    {
        self.select(&Filter { status: None, reason: Some(reason) }, limit)
    }

    /// What ended in this way for this reason.
    pub fn list_by_status_and_reason(&self, status: &str, reason: &str, limit: usize) -> (r: Vec<
        usize,
    >)
        ensures
            exists|places: Seq<usize>| #[trigger]
                crate::order::ranks(
                    places,
                    self.rows@,
                    passing((Filter { status: Some(status), reason: Some(reason) }), self.rows@),
                ) && r@ == crate::order::limited(places, limit),
    {
        self.select(&Filter { status: Some(status), reason: Some(reason) }, limit)
    }
}

/// What is logged stands last in the list of its task, and the list of every other task stays as
/// it was.
pub proof fn logged_row_is_listed_last(
    repository: FileExtractionRepository,
    row: FileExtractionRecord,
    places: Seq<usize>,
    other: Seq<char>,
    others: Seq<usize>,
)
    requires
        repository.is_numbered(),
        row.id == repository.last_id + 1,
        crate::order::ranks(
            places,
            numbers(repository.rows@.push(row)),
            of_task(repository.rows@.push(row), row.task_id@),
        ),
        other != row.task_id@,
        crate::order::ranks(others, numbers(repository.rows@), of_task(repository.rows@, other)),
    ensures
        places.len() > 0,
        places.last() == repository.rows@.len(),
        crate::order::ranks(
            others,
            numbers(repository.rows@.push(row)),
            of_task(repository.rows@.push(row), other),
        ),
{
    let before = repository.rows@;
    let all = before.push(row);
    let n = before.len() as int;
    assert(of_task(all, row.task_id@)[n]);
    let i = choose|i: int| 0 <= i < places.len() && #[trigger] places[i] == n;
    if i < places.len() - 1 {
        let a = places[i];
        let b = places[places.len() - 1];
        assert(a != b && b < all.len());
        assert(all[b as int] == before[b as int]);
        assert(before[b as int].id <= repository.last_id);
        assert(numbers(all)[b as int].precedes(&numbers(all)[n]));
    }
    crate::order::unwanted_row_changes_nothing(
        others,
        numbers(before),
        LogNumber { id: row.id },
        of_task(before, other),
    );
    assert(numbers(all) =~= numbers(before).push(LogNumber { id: row.id }));
    assert(of_task(all, other) =~= of_task(before, other).push(false));
}

/// What is logged last comes first among all that is looked for and that it is one of.
pub proof fn logged_row_is_most_recent(
    repository: FileExtractionRepository,
    row: FileExtractionRecord,
    filter: Filter,
    places: Seq<usize>,
)
    requires
        repository.is_numbered(),
        row.id == repository.last_id + 1,
        passes(filter, row),
        crate::order::ranks(
            places,
            repository.rows@.push(row),
            passing(filter, repository.rows@.push(row)),
        ),
    ensures
        places.len() > 0,
        places[0] == repository.rows@.len(),
{
    let before = repository.rows@;
    let wanted = passing(filter, before.push(row));
    assert(wanted.last());
    assert forall|k: int| 0 <= k < before.len() implies row.precedes(&#[trigger] before[k]) by {}
    crate::order::added_row_is_listed(places, before, row, wanted);
}

/// The log of a task is listed by rising number, and holds rows of that task alone.
pub proof fn log_of_a_task_rises(
    rows: Seq<FileExtractionRecord>,
    task_id: Seq<char>,
    places: Seq<usize>,
    i: int,
    j: int,
)
    requires
        crate::order::ranks(places, numbers(rows), of_task(rows, task_id)),
        0 <= i < j < places.len(),
    ensures
        rows[places[i] as int].id <= rows[places[j] as int].id,
        rows[places[i] as int].task_id@ == task_id,
        rows[places[j] as int].task_id@ == task_id,
{
    assert(of_task(rows, task_id)[places[i] as int]);
    assert(of_task(rows, task_id)[places[j] as int]);
    assert(!numbers(rows)[places[j] as int].precedes(&numbers(rows)[places[i] as int]));
}

/// What is looked for is listed by falling number, the last first, and is all that was asked for:
/// of the status and for the reason that were given.
pub proof fn last_entries_come_first(
    rows: Seq<FileExtractionRecord>,
    filter: Filter,
    places: Seq<usize>,
    i: int,
    j: int,
)
    requires
        crate::order::ranks(places, rows, passing(filter, rows)),
        0 <= i < j < places.len(),
    ensures
        rows[places[i] as int].id >= rows[places[j] as int].id,
        filter.status matches Some(status) ==> rows[places[i] as int].row.status@ == status@,
        filter.reason matches Some(reason) ==> rows[places[i] as int].row.reason is Some
            && rows[places[i] as int].row.reason->0@ == reason@,
{
    assert(passing(filter, rows)[places[i] as int]);
    assert(!rows[places[j] as int].precedes(&rows[places[i] as int]));
}

/// The row of a node says whether it has ended and how, why, and what was found out; of a node
/// that has not ended nothing but its input is told.
pub proof fn row_says_what_became_of_its_node(row: FileExtractionRow, node: NodeRecord)
    requires
        tells_node(row, node),
    ensures
        row.input_path == node.input_path,
        node.status matches crate::task_execution::RowStatus::Ended(status) ==> row.status@
            == status.text(),
        node.status == crate::task_execution::RowStatus::Pending ==> row.status@ == "pending"@,
        row.reason == node.reason,
        row.password_id == node_password(node),
        node.facts matches Some(f) ==> row.output_path == f.output_path && row.sample_hash
            == f.sample_hash && row.file_size == f.file_size && row.offset == f.embedded_offset
            && row.has_password == f.has_password && row.encoding == f.encoding
            && row.encoding_corrected == f.encoding_corrected,
        node.facts is None ==> row.output_path is None && row.sample_hash is None && row.encoding
            is None && !row.has_password,
{
}

/// A password that is forgotten stands in no row any more; nothing else of a row changes.
pub proof fn forgotten_password_leaves_the_row(r: FileExtractionRecord, id: i64)
    ensures
        without_password(r, id).row.password_id != Some(id),
        r.row.password_id != Some(id) ==> without_password(r, id) == r,
        without_password(r, id).id == r.id,
        without_password(r, id).task_id == r.task_id,
        without_password(r, id).row.status == r.row.status,
        without_password(r, id).row.has_password == r.row.has_password,
{
}

} // verus!
