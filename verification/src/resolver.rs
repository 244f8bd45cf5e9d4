//! Where an import of a source file leads.
//!
//! The library asks the disk nothing. Whoever runs it looks at the places
//! where the import may lead, and the functions of this module choose
//! among them.

use vstd::prelude::*;
use crate::text::{chars_start_with, to_chars};

verus! {

/// A path, and whether something is there.
#[derive(Debug)]
pub struct ProbedPath {
    pub path: String,
    pub exists: bool,
}

/// What the disk says of the places where a relative import may lead.
#[derive(Debug)]
pub struct RelativeProbe {
    /// The specifier, joined to the directory of the importing file.
    pub joined: ProbedPath,
    /// Whether `joined` is a directory.
    pub joined_is_dir: bool,
    /// `joined` with `ts` as its extension.
    pub joined_as_ts: ProbedPath,
    /// The file `index.ts` in `joined`.
    pub index: ProbedPath,
    /// `index` with `ts` as its extension.
    pub index_as_ts: ProbedPath,
}

/// An entry that the walk of `node_modules` came upon.
#[derive(Debug)]
pub struct WalkedPath {
    pub path: String,
    /// Whether the path ends with the name of the module.
    pub ends_with_module: bool,
}

/// What the disk says of the places where the import of a package may lead.
#[derive(Debug)]
pub struct PackageProbe {
    /// The specifier, joined to the `node_modules` directory of the root.
    pub direct: ProbedPath,
    /// Whether the root has a `node_modules` directory.
    pub node_modules_exists: bool,
    /// The entries of `node_modules`, in the order of the walk.
    pub walked: Vec<WalkedPath>,
}

/// What was looked at for an import.
#[derive(Debug)]
pub enum ModuleProbe {
    /// The import is relative, and the importing file has no directory.
    NoParent,
    Relative(RelativeProbe),
    Package(PackageProbe),
}

/// The specifier begins with `./` or `../`.
pub open spec fn relative(specifier: Seq<char>) -> bool {
    "./"@.is_prefix_of(specifier) || "../"@.is_prefix_of(specifier)
}

/// Whether an import is relative to the importing file: whether its
/// specifier begins with `./` or `../`.
pub fn is_relative(specifier: &str) -> (r: bool)
    ensures
        r == relative(specifier@),
{
    let chars = to_chars(specifier);
    let here = to_chars("./");
    let above = to_chars("../");
    chars_start_with(&chars, &here) || chars_start_with(&chars, &above)
}

/// The path of `p` where something is there.
pub open spec fn present(p: ProbedPath) -> Option<Seq<char>> {
    if p.exists {
        Some(p.path@)
    } else {
        None
    }
}

/// Where a relative import leads. A directory stands for its `index.ts`;
/// and where the place itself holds nothing, the same place with the
/// extension `ts` is tried.
pub open spec fn relative_resolution(probe: RelativeProbe) -> Option<Seq<char>> {
    let first = if probe.joined_is_dir {
        probe.index
    } else {
        probe.joined
    };
    let second = if probe.joined_is_dir {
        probe.index_as_ts
    } else {
        probe.joined_as_ts
    };
    if first.exists {
        Some(first.path@)
    } else {
        present(second)
    }
}

/// The position of the first walked entry that ends with the module's
/// name, if there is one.
pub open spec fn first_ending(walked: Seq<WalkedPath>) -> Option<int> {
    if exists|i: int| 0 <= i < walked.len() && (#[trigger] walked[i]).ends_with_module {
        Some(
            choose|i: int|
                0 <= i < walked.len() && (#[trigger] walked[i]).ends_with_module && forall|j: int|
                    0 <= j < i ==> !(#[trigger] walked[j]).ends_with_module,
        )
    } else {
        None
    }
}

/// The first walked entry that ends with the module's name is the one at
/// `i`.
proof fn lemma_first_ending(walked: Seq<WalkedPath>, i: int)
    requires
        0 <= i < walked.len(),
        walked[i].ends_with_module,
        forall|j: int| 0 <= j < i ==> !(#[trigger] walked[j]).ends_with_module,
    ensures
        first_ending(walked) == Some(i),
{
    let k = first_ending(walked)->0;
    assert(0 <= k < walked.len() && walked[k].ends_with_module && forall|j: int|
        0 <= j < k ==> !(#[trigger] walked[j]).ends_with_module);
}

/// What the search of `node_modules` finds: the first walked entry that
/// ends with the module's name; nothing where there is no `node_modules`.
pub open spec fn search_result(node_modules_exists: bool, walked: Seq<WalkedPath>) -> Option<
    Seq<char>,
> {
    if !node_modules_exists {
        None
    } else {
        match first_ending(walked) {
            Some(i) => Some(walked[i].path@),
            None => None,
        }
    }
}

/// Where the import of a package leads: to its place in `node_modules`
/// where that holds something, else to what the search finds.
pub open spec fn package_resolution(probe: PackageProbe) -> Option<Seq<char>> {
    if probe.direct.exists {
        Some(probe.direct.path@)
    } else {
        search_result(probe.node_modules_exists, probe.walked@)
    }
}

/// Where the import `specifier` leads, by what was looked at. A probe of
/// the other kind than the specifier's tells nothing.
pub open spec fn resolution(specifier: Seq<char>, probe: ModuleProbe) -> Option<Seq<char>> {
    match probe {
        ModuleProbe::NoParent => None,
        ModuleProbe::Relative(p) => if relative(specifier) {
            relative_resolution(p)
        } else {
            None
        },
        ModuleProbe::Package(p) => if relative(specifier) {
            None
        } else {
            package_resolution(p)
        },
    }
}

/// The text of an optional string.
pub open spec fn found_text(r: Option<String>) -> Option<Seq<char>> {
    match r {
        Some(s) => Some(s@),
        None => None,
    }
}

/// Searches what the walk of `node_modules` found for the module.
pub fn find_in_node_modules(node_modules_exists: bool, walked: &Vec<WalkedPath>) -> (r: Option<
    String,
>)
    ensures
        found_text(r) == search_result(node_modules_exists, walked@),
{
    if !node_modules_exists {
        return None;
    }
    let mut i: usize = 0;
    while i < walked.len()
        invariant
            i <= walked.len(),
            node_modules_exists,
            forall|j: int| 0 <= j < i ==> !(#[trigger] walked@[j]).ends_with_module,
        decreases walked.len() - i,
    {
        if walked[i].ends_with_module {
            proof {
                lemma_first_ending(walked@, i as int);
            }
            return Some(walked[i].path.clone());
        }
        i = i + 1;
    }
    None
}

/// Resolves the import `specifier` by what was looked at for it.
pub fn resolve_module(specifier: &str, probe: &ModuleProbe) -> (r: Option<String>)
    ensures
        found_text(r) == resolution(specifier@, *probe),
{
    let is_relative = is_relative(specifier);
    match probe {
        ModuleProbe::NoParent => None,
        ModuleProbe::Relative(p) => {
            if !is_relative {
                return None;
            }
            let (first, second) = if p.joined_is_dir {
                (&p.index, &p.index_as_ts)
            } else {
                (&p.joined, &p.joined_as_ts)
            };
            if first.exists {
                Some(first.path.clone())
            } else if second.exists {
                Some(second.path.clone())
            } else {
                None
            }
        },
        ModuleProbe::Package(p) => {
            if is_relative {
                return None;
            }
            if p.direct.exists {
                Some(p.direct.path.clone())
            } else {
                find_in_node_modules(p.node_modules_exists, &p.walked)
            }
        },
    }
}

} // verus!
