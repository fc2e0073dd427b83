use vstd::prelude::*;

verus! {

/// The workcell being edited, if any, and whether it is shown.
#[derive(Clone, Copy, Debug, PartialEq, Eq, Structural)]
pub struct CurrentWorkspace {
    pub root: Option<u64>,
    pub display: bool,
}

/// A request for one of the placement workflows.
pub enum SelectorRequest<O> {
    /// Place `object` in `workspace`, under `parent` when one is selected.
    PlaceObject3d { object: O, parent: Option<u64>, workspace: u64 },
    /// Pick a new parent for `entity` within `workspace`.
    ReplaceParent3d { entity: u64, workspace: u64 },
}

/// Entry point for placing objects: requests are queued in `outbox`, from
/// where the host dispatches them to the workflows.
pub struct ObjectPlacement<O> {
    pub current_workspace: CurrentWorkspace,
    pub current_selection: Option<u64>,
    pub outbox: Vec<SelectorRequest<O>>,
}

impl<O> ObjectPlacement<O> {
    pub fn new(current_workspace: CurrentWorkspace, current_selection: Option<u64>) -> (r: Self)
        ensures
            r.current_workspace == current_workspace,
            r.current_selection == current_selection,
            r.outbox@.len() == 0,
    {
        ObjectPlacement { current_workspace, current_selection, outbox: Vec::new() }
    }

    /// Requests that `object` be placed in the current workspace, under the
    /// current selection. Without a workspace nothing changes and `false`
    /// comes back, for the caller to warn.
    pub fn place_object_3d(&mut self, object: O) -> (dispatched: bool)
        ensures
            dispatched == old(self).current_workspace.root is Some,
            dispatched ==> final(self).outbox@ == old(self).outbox@.push(
                (SelectorRequest::PlaceObject3d {
                    object,
                    parent: old(self).current_selection,
                    workspace: old(self).current_workspace.root.unwrap(),
                }),
            ),
            final(self).current_workspace == old(self).current_workspace,
            final(self).current_selection == old(self).current_selection,
            !dispatched ==> final(self).outbox@ == old(self).outbox@,
    {
        let workspace = match self.current_workspace.root {
            Some(workspace) => workspace,
            None => return false,
        };
        let parent = self.current_selection;
        self.send(SelectorRequest::PlaceObject3d { object, parent, workspace });
        true
    }

    /// Requests that a new parent be picked for `object` within `workspace`.
    /// Without an active workspace nothing changes and `false` comes back,
    /// for the caller to warn.
    pub fn replace_parent_3d(&mut self, object: u64, workspace: u64) -> (dispatched: bool)
        ensures
            dispatched == old(self).current_workspace.root is Some,
            dispatched ==> final(self).outbox@ == old(self).outbox@.push(
                (SelectorRequest::ReplaceParent3d { entity: object, workspace }),
            ),
            !dispatched ==> final(self).outbox@ == old(self).outbox@,
            final(self).current_workspace == old(self).current_workspace,
            final(self).current_selection == old(self).current_selection,
    {
        if self.current_workspace.root.is_none() {
            return false;
        }
        self.send(SelectorRequest::ReplaceParent3d { entity: object, workspace });
        true
    }

    fn send(&mut self, run: SelectorRequest<O>)
        ensures
            final(self).outbox@ == old(self).outbox@.push(run),
            final(self).current_workspace == old(self).current_workspace,
            final(self).current_selection == old(self).current_selection,
    {
        self.outbox.push(run);
    }
}

} // verus!
