use rmf_workcell_editor::placement::{CurrentWorkspace, ObjectPlacement, SelectorRequest};
use rmf_workcell_editor::workcell::{change_workcell, ChangeCurrentWorkcell};

#[test]
fn placing_without_a_workspace_does_nothing() {
    let ws = CurrentWorkspace { root: None, display: false };
    let mut placement: ObjectPlacement<&str> = ObjectPlacement::new(ws, Some(4));
    assert!(!placement.place_object_3d("model"));
    assert!(placement.outbox.is_empty());
    assert_eq!(placement.current_workspace, ws);
}

#[test]
fn placing_in_a_workspace_queues_a_request() {
    let ws = CurrentWorkspace { root: Some(7), display: true };
    let mut placement: ObjectPlacement<&str> = ObjectPlacement::new(ws, Some(4));
    assert!(placement.place_object_3d("model"));
    assert_eq!(placement.outbox.len(), 1);
    match &placement.outbox[0] {
        SelectorRequest::PlaceObject3d { object, parent, workspace } => {
            assert_eq!(*object, "model");
            assert_eq!(*parent, Some(4));
            assert_eq!(*workspace, 7);
        }
        _ => panic!("expected a placement request"),
    }
}

#[test]
fn replace_parent_queues_a_request() {
    let ws = CurrentWorkspace { root: Some(9), display: true };
    let mut placement: ObjectPlacement<&str> = ObjectPlacement::new(ws, None);
    assert!(placement.replace_parent_3d(3, 9));
    assert_eq!(placement.outbox.len(), 1);
    match &placement.outbox[0] {
        SelectorRequest::ReplaceParent3d { entity, workspace } => {
            assert_eq!((*entity, *workspace), (3, 9));
        }
        _ => panic!("expected a reparent request"),
    }
}

#[test]
fn change_to_an_open_workcell() {
    let mut ws = CurrentWorkspace { root: None, display: false };
    let requests = vec![ChangeCurrentWorkcell { root: 8 }, ChangeCurrentWorkcell { root: 2 }];
    assert_eq!(change_workcell(&mut ws, &requests, &vec![2, 5]), Ok(()));
    assert_eq!(ws, CurrentWorkspace { root: Some(2), display: true });
}

#[test]
fn change_to_an_unknown_workcell_is_rejected() {
    let mut ws = CurrentWorkspace { root: Some(5), display: false };
    let requests = vec![ChangeCurrentWorkcell { root: 3 }];
    assert_eq!(change_workcell(&mut ws, &requests, &vec![5]), Err(3));
    assert_eq!(ws, CurrentWorkspace { root: Some(5), display: false });
}

#[test]
fn no_change_request_leaves_the_workspace() {
    let mut ws = CurrentWorkspace { root: Some(5), display: true };
    assert_eq!(change_workcell(&mut ws, &vec![], &vec![5]), Ok(()));
    assert_eq!(ws, CurrentWorkspace { root: Some(5), display: true });
}

#[test]
fn replace_parent_without_a_workspace_does_nothing() {
    let ws = CurrentWorkspace { root: None, display: false };
    let mut placement: ObjectPlacement<&str> = ObjectPlacement::new(ws, Some(2));
    assert!(!placement.replace_parent_3d(3, 9));
    assert!(placement.outbox.is_empty());
    assert_eq!(placement.current_workspace, ws);
}
