//! Which files and which projects of a repository a change affects, and
//! what the configured tasks run on them.

use vstd::prelude::*;

pub mod config;
pub mod dependencies;
pub mod glob;
pub mod graph;
pub mod node;
pub mod nx;
pub mod projects;
pub mod reports;
pub mod resolver;
pub mod string_set;
pub mod tasks;
pub mod text;
pub mod ts;
pub mod workspace;

pub use config::Config;

verus! {

/// How a list is shown.
#[derive(Clone, Debug)]
pub enum OutputFormat {
    Table,
    Json,
    Text,
}

/// A directory on the way from a starting directory up to the topmost one,
/// and whether it holds a `.git` entry.
#[derive(Debug)]
pub struct AncestorDir {
    pub path: String,
    pub has_git: bool,
}

/// The position of the repository root among `ancestors`, if it is there:
/// the first directory that holds a `.git` entry, the last directory of
/// the list left out.
pub open spec fn git_root_position(ancestors: Seq<AncestorDir>) -> Option<int> {
    if exists|i: int| 0 <= i < ancestors.len() - 1 && (#[trigger] ancestors[i]).has_git {
        Some(
            choose|i: int|
                0 <= i < ancestors.len() - 1 && (#[trigger] ancestors[i]).has_git && forall|j: int|
                    0 <= j < i ==> !(#[trigger] ancestors[j]).has_git,
        )
    } else {
        None
    }
}

/// The first directory with a `.git` entry is the one at `i`.
proof fn lemma_git_root_position(ancestors: Seq<AncestorDir>, i: int)
    requires
        0 <= i < ancestors.len() - 1,
        ancestors[i].has_git,
        forall|j: int| 0 <= j < i ==> !(#[trigger] ancestors[j]).has_git,
    ensures
        git_root_position(ancestors) == Some(i),
{
    let k = git_root_position(ancestors)->0;
    assert(0 <= k < ancestors.len() - 1 && ancestors[k].has_git && forall|j: int|
        0 <= j < k ==> !(#[trigger] ancestors[j]).has_git);
}

/// The root of the repository that the starting directory lies in.
/// `ancestors` holds the starting directory, then its parent, and so on up
/// to the topmost directory. The root is the nearest of them that holds a
/// `.git` entry; the topmost directory, which has no parent, is never taken
/// for it.
pub fn find_git_root(ancestors: &Vec<AncestorDir>) -> (root: Option<String>)
    ensures
        match root {
            Some(path) => git_root_position(ancestors@) matches Some(i) && path@
                == ancestors@[i].path@,
            None => git_root_position(ancestors@) is None,
        },
{
    if ancestors.len() == 0 {
        return None;
    }
    let last = ancestors.len() - 1;
    let mut i: usize = 0;
    while i < last
        invariant
            i <= last,
            last == ancestors@.len() - 1,
            forall|j: int| 0 <= j < i ==> !(#[trigger] ancestors@[j]).has_git,
        decreases last - i,
    {
        if ancestors[i].has_git {
            proof {
                lemma_git_root_position(ancestors@, i as int);
            }
            return Some(ancestors[i].path.clone());
        }
        i = i + 1;
    }
    None
}

} // verus!
