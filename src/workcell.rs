use vstd::prelude::*;

use crate::placement::CurrentWorkspace;

verus! {

/// A request to make the workcell under `root` the current one.
#[derive(Clone, Copy, Debug, PartialEq, Eq, Structural)]
pub struct ChangeCurrentWorkcell {
    pub root: u64,
}

/// Acts on the last of `requests`: when its root is among `open_workcells`
/// it becomes the current workspace, shown; otherwise nothing changes and the
/// rejected root comes back as the error.
pub fn change_workcell(
    current_workspace: &mut CurrentWorkspace,
    requests: &Vec<ChangeCurrentWorkcell>,
    open_workcells: &Vec<u64>,
) -> (r: Result<(), u64>)
    ensures
        requests@.len() == 0 ==> r is Ok && *final(current_workspace) == *old(current_workspace),
        requests@.len() > 0 ==> {
            let root = requests@.last().root;
            &&& open_workcells@.contains(root) ==> r is Ok && *final(current_workspace)
                == (CurrentWorkspace { root: Some(root), display: true })
            &&& !open_workcells@.contains(root) ==> r == Err::<(), u64>(root)
                && *final(current_workspace) == *old(current_workspace)
        },
{
    if requests.len() == 0 {
        return Ok(());
    }
    let root = requests[requests.len() - 1].root;
    let mut i: usize = 0;
    while i < open_workcells.len()
        invariant
            requests@.len() > 0,
            root == requests@.last().root,
            *current_workspace == *old(current_workspace),
            i <= open_workcells@.len(),
            forall|j: int| 0 <= j < i ==> open_workcells@[j] != root,
        decreases open_workcells@.len() - i,
    {
        if open_workcells[i] == root {
            assert(open_workcells@[i as int] == root);
            current_workspace.root = Some(root);
            current_workspace.display = true;
            return Ok(());
        }
        i = i + 1;
    }
    Err(root)
}

} // verus!
