//! The descriptor of a Node package.

use vstd::prelude::*;
use crate::config::text_of;
use crate::projects::Project;

verus! {

/// What this tool reads of a `package.json` file.
#[derive(Debug)]
pub struct NodeProject {
    pub name: Option<String>,
}

impl Project for NodeProject {
    open spec fn declared_name(&self) -> Option<Seq<char>> {
        text_of(self.name)
    }

    fn name(&self) -> (r: Option<&str>) {
        match &self.name {
            Some(n) => Some(n.as_str()),
            None => None,
        }
    }
}

} // verus!
