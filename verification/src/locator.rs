//! Workspace discovery: the workspace root is the nearest ancestor of the
//! working directory that holds the board marker directory `.kanban`.
//!
//! The caller walks the real directory tree and hands in the ancestor chain,
//! nearest first; the library picks the root.

use vstd::prelude::*;
use crate::KanbanError;
use crate::paths::path_join;
use crate::paths::join;

verus! {

/// One ancestor of the working directory: its path, and whether it holds the
/// marker directory.
pub struct Ancestor {
    pub path: String,
    pub has_marker: bool,
}

/// The mathematical value of an ancestor.
pub struct AncestorSpec {
    pub path: Seq<char>,
    pub has_marker: bool,
}

impl View for Ancestor {
    type V = AncestorSpec;

    open spec fn view(&self) -> AncestorSpec {
        AncestorSpec { path: self.path@, has_marker: self.has_marker }
    }
}

/// The views of an ancestor chain.
pub open spec fn chain_view(v: Seq<Ancestor>) -> Seq<AncestorSpec> {
    v.map_values(|a: Ancestor| a@)
}

/// The root of the current workspace: the first ancestor in the chain (the
/// working directory first, then its parents up to the filesystem root) that
/// holds the marker directory. The walk is bounded by the chain and never
/// loops past its end.
pub fn find_current_workspace_root(chain: &Vec<Ancestor>) -> (r: Result<String, KanbanError>)
    ensures
        match r {
            Ok(p) => exists|i: int|
                0 <= i < chain@.len() && (#[trigger] chain_view(chain@)[i]).has_marker && p@
                    == chain_view(chain@)[i].path && forall|k: int|
                    0 <= k < i ==> !(#[trigger] chain_view(chain@)[k]).has_marker,
            Err(e) => e == KanbanError::WorkspaceNotFound && forall|k: int|
                0 <= k < chain@.len() ==> !(#[trigger] chain_view(chain@)[k]).has_marker,
        },
{
    let n = chain.len();
    let mut i: usize = 0;
    while i < n
        invariant
            i <= n,
            n == chain@.len(),
            forall|k: int| 0 <= k < i ==> !(#[trigger] chain_view(chain@)[k]).has_marker,
        decreases n - i,
    {
        if chain[i].has_marker {
            proof {
                assert(chain_view(chain@)[i as int] == chain@[i as int]@);
            }
            return Ok(chain[i].path.clone());
        }
        proof {
            assert(chain_view(chain@)[i as int] == chain@[i as int]@);
        }
        i = i + 1;
    }
    Err(KanbanError::WorkspaceNotFound)
}

/// The marker directory of the current workspace: the workspace root with
/// `.kanban` joined on.
pub fn find_kanban(chain: &Vec<Ancestor>) -> (r: Result<String, KanbanError>)
    ensures
        match r {
            Ok(p) => exists|i: int|
                0 <= i < chain@.len() && (#[trigger] chain_view(chain@)[i]).has_marker && p@
                    == path_join(chain_view(chain@)[i].path, ".kanban"@) && forall|k: int|
                    0 <= k < i ==> !(#[trigger] chain_view(chain@)[k]).has_marker,
            Err(e) => e == KanbanError::WorkspaceNotFound && forall|k: int|
                0 <= k < chain@.len() ==> !(#[trigger] chain_view(chain@)[k]).has_marker,
        },
{
    match find_current_workspace_root(chain) {
        Ok(root) => Ok(join(root.as_str(), ".kanban")),
        Err(e) => Err(e),
    }
}

} // verus!
