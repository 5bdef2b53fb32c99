//! What is told about the work on an archive.

use vstd::prelude::*;
use vstd::string::*;
use crate::text::push_decimal;

verus! {

/// Something to tell.
pub enum Notice {
    IncompleteVolumes { path: String, why: String },
    AmbiguousGrouping { path: String, count: u64 },
    NotMaterialized { path: String, why: String },
    ScanLimited { bytes: u64, path: String },
    ProcessingInput { index: u64, total: u64, path: String },
    ProcessingNested { depth: u64, path: String },
    Extracting { path: String, depth: u64 },
    TryingPassword { index: u64, total: u64, label: String, path: String },
    RecoveryRetained { path: String },
    GroupingFailed { attempt: u64, path: String },
    GroupingSucceeded { attempt: u64, path: String, left: u64 },
    NotRecycled { path: String, why: String },
    StaleStage { node: String, generation: u64 },
    StaleEnd { node: String, generation: u64 },
    StaleReply { node: String },
    DecisionNotKept { node: String },
    StagingNotKept { node: String },
    IntentNotKept { node: String },
    CommitNotKept { node: String },
}

impl Notice {
    /// The words of the notice.
    pub open spec fn text(self) -> Seq<char> {
        match self {
            Notice::IncompleteVolumes { path, why } => "incomplete volume set for "@ + path@ + ": "@
                + why@,
            Notice::AmbiguousGrouping { path, count } => "grouping ambiguous for "@ + path@ + ": "@
                + crate::text::decimal(count as nat) + " hypotheses"@,
            Notice::NotMaterialized { path, why } => "volume materialization failed for "@ + path@
                + ": "@ + why@,
            Notice::ScanLimited { bytes, path } => "embedded scan limited to first "@
                + crate::text::decimal(bytes as nat) + " bytes of "@ + path@,
            Notice::ProcessingInput { index, total, path } => "Processing input ["@
                + crate::text::decimal(index as nat) + "/"@ + crate::text::decimal(total as nat)
                + "]: "@ + path@,
            Notice::ProcessingNested { depth, path } => "Processing nested archive at depth "@
                + crate::text::decimal(depth as nat) + ": "@ + path@,
            Notice::Extracting { path, depth } => "Extracting "@ + path@ + " at depth "@
                + crate::text::decimal(depth as nat),
            Notice::TryingPassword { index, total, label, path } => "Trying password ["@
                + crate::text::decimal(index as nat) + "/"@ + crate::text::decimal(total as nat)
                + "] ("@ + label@ + ") by extraction for "@ + path@,
            Notice::RecoveryRetained { path } => "recovery output retained at "@ + path@,
            Notice::GroupingFailed { attempt, path } => "volume grouping attempt "@
                + crate::text::decimal(attempt as nat) + " failed for "@ + path@
                + "; trying next grouping"@,
            Notice::GroupingSucceeded { attempt, path, left } => "volume grouping attempt "@
                + crate::text::decimal(attempt as nat) + " succeeded for "@ + path@
                + "; discarded "@ + crate::text::decimal(left as nat) + " remaining groupings"@,
            Notice::NotRecycled { path, why } => "failed to move processed nested archive "@ + path@
                + " to trash: "@ + why@,
            Notice::StaleStage { node, generation } => "stale stage result for node "@ + node@
                + " generation "@ + crate::text::decimal(generation as nat),
            Notice::StaleEnd { node, generation } => "stale terminal result for node "@ + node@
                + " generation "@ + crate::text::decimal(generation as nat),
            Notice::StaleReply { node } => "stale decision reply for node "@ + node@,
            Notice::DecisionNotKept { node } => "could not persist decision for node "@ + node@,
            Notice::StagingNotKept { node } => "could not persist staging ownership for node "@
                + node@,
            Notice::IntentNotKept { node } => "could not persist commit intent for node "@ + node@,
            Notice::CommitNotKept { node } => "could not persist published commit for node "@
                + node@,
        }
    }

    pub fn describe(&self) -> (r: String)
        ensures
            r@ == self.text(),
    {
        proof {
            reveal_strlit("");
        }
        match self {
            Notice::IncompleteVolumes { path, why } => {
                about("incomplete volume set for ", path.as_str(), ": ", why.as_str())
            },
            Notice::AmbiguousGrouping { path, count } => {
                let mut text = about("grouping ambiguous for ", path.as_str(), ": ", "");
                push_decimal(&mut text, *count);
                text.append(" hypotheses");
                text
            },
            Notice::NotMaterialized { path, why } => {
                about("volume materialization failed for ", path.as_str(), ": ", why.as_str())
            },
            Notice::ScanLimited { bytes, path } => {
                counted("embedded scan limited to first ", *bytes, " bytes of ", path.as_str())
            },
            Notice::ProcessingInput { index, total, path } => {
                let mut text = counted("Processing input [", *index, "/", "");
                push_decimal(&mut text, *total);
                text.append("]: ");
                text.append(path.as_str());
                text
            },
            Notice::ProcessingNested { depth, path } => {
                counted("Processing nested archive at depth ", *depth, ": ", path.as_str())
            },
            Notice::Extracting { path, depth } => {
                let mut text = about("Extracting ", path.as_str(), " at depth ", "");
                push_decimal(&mut text, *depth);
                text
            },
            Notice::TryingPassword { index, total, label, path } => {
                let mut text = counted("Trying password [", *index, "/", "");
                push_decimal(&mut text, *total);
                text.append("] (");
                text.append(label.as_str());
                text.append(") by extraction for ");
                text.append(path.as_str());
                text
            },
            Notice::RecoveryRetained { path } => {
                about("recovery output retained at ", path.as_str(), "", "")
            },
            Notice::GroupingFailed { attempt, path } => {
                let mut text = counted(
                    "volume grouping attempt ",
                    *attempt,
                    " failed for ",
                    path.as_str(),
                );
                text.append("; trying next grouping");
                text
            },
            Notice::GroupingSucceeded { attempt, path, left } => {
                let mut text = counted(
                    "volume grouping attempt ",
                    *attempt,
                    " succeeded for ",
                    path.as_str(),
                );
                text.append("; discarded ");
                push_decimal(&mut text, *left);
                text.append(" remaining groupings");
                text
            },
            Notice::NotRecycled { path, why } => {
                about(
                    "failed to move processed nested archive ",
                    path.as_str(),
                    " to trash: ",
                    why.as_str(),
                )
            },
            Notice::StaleStage { node, generation } => {
                let mut text = about("stale stage result for node ", node.as_str(), " generation ", "");
                push_decimal(&mut text, *generation);
                text
            },
            Notice::StaleEnd { node, generation } => {
                let mut text = about(
                    "stale terminal result for node ",
                    node.as_str(),
                    " generation ",
                    "",
                );
                push_decimal(&mut text, *generation);
                text
            },
            Notice::StaleReply { node } => {
                about("stale decision reply for node ", node.as_str(), "", "")
            },
            Notice::DecisionNotKept { node } => {
                about("could not persist decision for node ", node.as_str(), "", "")
            },
            Notice::StagingNotKept { node } => {
                about("could not persist staging ownership for node ", node.as_str(), "", "")
            },
            Notice::IntentNotKept { node } => {
                about("could not persist commit intent for node ", node.as_str(), "", "")
            },
            Notice::CommitNotKept { node } => {
                about("could not persist published commit for node ", node.as_str(), "", "")
            },
        }
    }
}

fn about(head: &str, what: &str, joint: &str, tail: &str) -> (r: String)
    ensures
        r@ == head@ + what@ + joint@ + tail@,
        joint@.len() == 0 && tail@.len() == 0 ==> r@ == head@ + what@,
        tail@.len() == 0 ==> r@ == head@ + what@ + joint@,
{
    let mut text: String = head.to_owned();
    text.append(what);
    text.append(joint);
    text.append(tail);
    text
}

fn counted(head: &str, count: u64, joint: &str, tail: &str) -> (r: String)
    ensures
        r@ == head@ + crate::text::decimal(count as nat) + joint@ + tail@,
        tail@.len() == 0 ==> r@ == head@ + crate::text::decimal(count as nat) + joint@,
{
    let mut text: String = head.to_owned();
    push_decimal(&mut text, count);
    text.append(joint);
    text.append(tail);
    text
}

} // verus!
