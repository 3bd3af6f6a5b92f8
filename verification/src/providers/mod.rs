//! Importing from source control: what can be imported, and the readers of
//! git and Perforce output.
use vstd::prelude::*;

pub mod git;
pub mod p4;

verus! {

/// What a provider can import.
#[derive(Debug, Clone)]
pub enum ImportTarget {
    GitWorkingTree { repo_path: String },
    GitCommit { repo_path: String, rev: String },
    GitPullRequest { repo_path: String, pr_id: String, target_branch: String, pr_title: Option<String> },
    GitStash { repo_path: String, stash_id: String },
    P4Pending { change: String, cwd: Option<String> },
    P4Shelved { change: String, cwd: Option<String> },
    P4Submitted { change: String, cwd: Option<String> },
}

} // verus!
