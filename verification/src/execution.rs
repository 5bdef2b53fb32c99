//! What a task records about its nodes and about the output that it commits.

use vstd::prelude::*;
use crate::text::{own, same_text};
use crate::types::ExtractionCandidate;

verus! {

/// Which object a path names, and in which state.
pub struct ArtifactIdentity {
    pub file_type: String,
    pub len: u64,
    pub modified_ns: Option<u64>,
    pub device: u64,
    pub inode: u64,
}

impl ArtifactIdentity {
    /// `actual` is the same file system object.
    pub open spec fn is_object(self, actual: ArtifactIdentity) -> bool {
        &&& self.device == actual.device
        &&& self.inode == actual.inode
        &&& self.file_type@ == actual.file_type@
    }

    /// `actual` is the same object, and nothing was written to it since.
    pub open spec fn is_version(self, actual: ArtifactIdentity) -> bool {
        &&& self.is_object(actual)
        &&& self.len == actual.len
        &&& self.modified_ns == actual.modified_ns
    }

    /// Whether the identity captured now names the recorded object.
    pub fn matches_object(&self, actual: &ArtifactIdentity) -> (r: bool)
        ensures
            r == self.is_object(*actual),
    {
        self.device == actual.device && self.inode == actual.inode && same_text(
            self.file_type.as_str(),
            actual.file_type.as_str(),
        )
    }

    /// Whether the identity captured now names the recorded object, unchanged.
    pub fn matches_version(&self, actual: &ArtifactIdentity) -> (r: bool)
        ensures
            r == self.is_version(*actual),
    {
        let same_time: bool = match (self.modified_ns, actual.modified_ns) {
            (Some(a), Some(b)) => a == b,
            (None, None) => true,
            _ => false,
        };
        self.matches_object(actual) && self.len == actual.len && same_time
    }
}

/// An unchanged object is the same object.
pub proof fn version_is_object(recorded: ArtifactIdentity, actual: ArtifactIdentity)
    requires
        recorded.is_version(actual),
    ensures
        recorded.is_object(actual),
{
}

/// What a committed extraction learned about its archive.
pub struct CommitSuccessFacts {
    pub sample_hash: Option<String>,
    pub file_size: Option<i64>,
    pub embedded_offset: Option<u64>,
    pub has_password: bool,
    pub password_id: Option<i64>,
    pub encoding: Option<String>,
    pub encoding_corrected: bool,
}

/// An output that is about to move from its staging place to its target.
pub struct CommitIntent {
    pub commit_id: String,
    pub staging_path: String,
    pub source_path: String,
    pub target_path: String,
    pub marker_path: String,
    pub backup_path: Option<String>,
    pub source_identity: ArtifactIdentity,
    pub target_before: Option<ArtifactIdentity>,
    pub output_files: u64,
    pub output_bytes: u64,
    pub success: CommitSuccessFacts,
}

/// How far a commit has come.
pub enum CommitRecord {
    Prepared { intent: CommitIntent },
    Published { intent: CommitIntent },
}

impl CommitRecord {
    /// The intent, whatever the phase.
    pub open spec fn the_intent(self) -> CommitIntent {
        match self {
            CommitRecord::Prepared { intent } => intent,
            CommitRecord::Published { intent } => intent,
        }
    }

    pub fn intent(&self) -> (r: &CommitIntent)
        ensures
            *r == self.the_intent(),
    {
        match self {
            CommitRecord::Prepared { intent } => intent,
            CommitRecord::Published { intent } => intent,
        }
    }
}

/// A directory that an unfinished extraction writes to.
pub struct StagingArtifact {
    pub path: String,
}

/// What a task has used of its limits so far.
#[derive(Clone, Copy, Debug, PartialEq, Eq, Structural)]
pub struct TaskBudgetSnapshot {
    pub output_files: u64,
    pub output_bytes: u64,
    pub nested_candidates: usize,
}

impl Default for TaskBudgetSnapshot {
    fn default() -> (r: Self)
        ensures
            r == (TaskBudgetSnapshot { output_files: 0, output_bytes: 0, nested_candidates: 0 }),
    {
        TaskBudgetSnapshot { output_files: 0, output_bytes: 0, nested_candidates: 0 }
    }
}

/// A node that stands for one input of a task.
pub struct ExtractRootIdentity {
    pub node_id: String,
    pub root_id: String,
    pub generation: u64,
    pub candidate: ExtractionCandidate,
}

/// A task with the nodes that it starts from, and what it has used before.
pub struct ExtractTaskIdentity {
    pub task_id: String,
    pub roots: Vec<ExtractRootIdentity>,
    pub budget: TaskBudgetSnapshot,
}

impl ExtractTaskIdentity {
    /// A task that begins: each input is its own root, in its first generation, and nothing is
    /// used yet.
    pub fn new(task_id: String, inputs: Vec<ExtractionCandidate>, node_ids: &Vec<String>) -> (r:
        ExtractTaskIdentity)
        requires
            inputs@.len() == node_ids@.len(),
        ensures
            r.task_id == task_id,
            r.budget == (TaskBudgetSnapshot {
                output_files: 0,
                output_bytes: 0,
                nested_candidates: 0,
            }),
            r.roots@.len() == inputs@.len(),
            forall|i: int|
                0 <= i < inputs@.len() ==> {
                    &&& (#[trigger] r.roots@[i]).node_id@ == node_ids@[i]@
                    &&& r.roots@[i].root_id@ == node_ids@[i]@
                    &&& r.roots@[i].generation == 0
                    &&& r.roots@[i].candidate == inputs@[i]
                },
    {
        let mut roots: Vec<ExtractRootIdentity> = Vec::new();
        let mut i: usize = 0;
        while i < inputs.len()
            invariant
                i <= inputs@.len(),
                inputs@.len() == node_ids@.len(),
                roots@.len() == i,
                forall|k: int|
                    0 <= k < i ==> {
                        &&& (#[trigger] roots@[k]).node_id@ == node_ids@[k]@
                        &&& roots@[k].root_id@ == node_ids@[k]@
                        &&& roots@[k].generation == 0
                        &&& roots@[k].candidate == inputs@[k]
                    },
            decreases inputs.len() - i,
        {
            roots.push(
                ExtractRootIdentity {
                    node_id: node_ids[i].clone(),
                    root_id: node_ids[i].clone(),
                    generation: 0,
                    candidate: inputs[i].clone(),
                },
            );
            i += 1;
        }
        ExtractTaskIdentity { task_id, roots, budget: TaskBudgetSnapshot::default() }
    }
}

/// How a node ended.
pub struct NodeOutcome {
    pub status: String,
    pub reason: Option<String>,
    pub output_path: Option<String>,
    pub committed: bool,
    pub sample_hash: Option<String>,
    pub file_size: Option<i64>,
    pub embedded_offset: Option<u64>,
    pub has_password: bool,
    pub password_id: Option<i64>,
    pub encoding: Option<String>,
    pub encoding_corrected: bool,
    pub output_files: u64,
    pub output_bytes: u64,
}

impl NodeOutcome {
    /// The outcome carries nothing beyond status, reason, output and the commit flag.
    pub open spec fn is_bare(self) -> bool {
        &&& self.sample_hash is None
        &&& self.file_size is None
        &&& self.embedded_offset is None
        &&& !self.has_password
        &&& self.password_id is None
        &&& self.encoding is None
        &&& !self.encoding_corrected
        &&& self.output_files == 0
        &&& self.output_bytes == 0
    }

    /// An outcome with a status and a reason alone.
    pub fn terminal(
        status: &str,
        reason: Option<&str>,
        output_path: Option<&str>,
        committed: bool,
    ) -> (r: NodeOutcome)
        ensures
            r.status@ == status@,
            crate::text::opt_text(r.reason) == crate::text::opt_str(reason),
            crate::text::opt_text(r.output_path) == crate::text::opt_str(output_path),
            r.committed == committed,
            r.is_bare(),
    {
        NodeOutcome {
            status: status.to_owned(),
            reason: own(reason),
            output_path: own(output_path),
            committed,
            sample_hash: None,
            file_size: None,
            embedded_offset: None,
            has_password: false,
            password_id: None,
            encoding: None,
            encoding_corrected: false,
            output_files: 0,
            output_bytes: 0,
        }
    }
}

/// What lies on another device, under another number or is of another kind is another object, and
/// what has another length or was written at another time is another version. What differs in
/// none of these is the same. Neither question depends on which of the two was recorded first.
pub proof fn objects_are_told_apart(recorded: ArtifactIdentity, actual: ArtifactIdentity)
    ensures
        recorded.device != actual.device ==> !recorded.is_object(actual),
        recorded.inode != actual.inode ==> !recorded.is_object(actual),
        recorded.file_type@ != actual.file_type@ ==> !recorded.is_object(actual),
        recorded.is_object(actual) && recorded.len != actual.len ==> !recorded.is_version(actual),
        recorded.is_object(actual) && recorded.modified_ns != actual.modified_ns
            ==> !recorded.is_version(actual),
        recorded.is_object(actual) && recorded.len == actual.len && recorded.modified_ns
            == actual.modified_ns ==> recorded.is_version(actual),
        recorded.is_object(actual) <==> actual.is_object(recorded),
        recorded.is_version(actual) <==> actual.is_version(recorded),
        recorded.is_version(recorded),
{
}

} // verus!
