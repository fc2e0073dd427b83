use rmf_workcell_editor::document::{
    generate_workcell, Diagnostic, GeometrySource, PayloadKind, Placed, WorkcellGenerationError,
};
use rmf_workcell_editor::save::{package_context, save_workcell, ExportFormat, SaveAction, SaveWorkcell};
use rmf_workcell_editor::scene::{assign_site_ids, parent_in_workcell, Node, Scene, SceneError};

fn root_node(name: &str) -> Node {
    Node {
        workcell_name: Some(name.to_string()),
        ..Default::default()
    }
}

fn frame(parent: usize) -> Node {
    Node {
        parent: Some(parent),
        frame_marker: true,
        anchor: true,
        name: true,
        ..Default::default()
    }
}

fn visual_mesh(parent: usize) -> Node {
    Node {
        parent: Some(parent),
        visual_marker: true,
        name: true,
        pose: true,
        asset_source: true,
        ..Default::default()
    }
}

fn build(nodes: Vec<Node>) -> Scene {
    let mut scene = Scene::new();
    for n in nodes {
        scene.add_node(n).unwrap();
    }
    scene
}

#[test]
fn missing_workcell_name_is_an_error() {
    let scene = build(vec![Node::default(), frame(0)]);
    let r = generate_workcell(&scene, 0);
    assert_eq!(r.err(), Some(WorkcellGenerationError::InvalidWorkcellEntity(0)));
}

#[test]
fn unknown_root_is_an_error() {
    let scene = build(vec![root_node("cell")]);
    let r = generate_workcell(&scene, 5);
    assert_eq!(r.err(), Some(WorkcellGenerationError::InvalidWorkcellEntity(5)));
}

#[test]
fn error_message_names_the_problem() {
    let msg = WorkcellGenerationError::InvalidWorkcellEntity(3).message();
    assert_eq!(msg, "the specified entity does not refer to a workcell");
}

#[test]
fn stable_ids_number_root_and_exportable_descendants() {
    // 0 root, 1 frame, 2 plain entity, 3 joint under 2, 4 pending frame,
    // 5 unrelated root, 6 frame under 5, 7 visual under 1
    let mut pending = frame(0);
    pending.pending = true;
    let joint = Node {
        parent: Some(2),
        joint_properties: true,
        name: true,
        ..Default::default()
    };
    let scene = build(vec![
        root_node("cell"),
        frame(0),
        Node { parent: Some(0), ..Default::default() },
        joint,
        pending,
        root_node("other"),
        frame(5),
        visual_mesh(1),
    ]);
    let ids = assign_site_ids(&scene, 0);
    assert_eq!(
        ids,
        vec![Some(0), Some(1), None, Some(2), None, None, None, Some(3)]
    );
    let other = assign_site_ids(&scene, 5);
    assert_eq!(other, vec![None, None, None, None, None, Some(0), Some(1), None]);
}

#[test]
fn descendants_are_found_through_ancestors() {
    let scene = build(vec![root_node("cell"), frame(0), visual_mesh(1), root_node("b")]);
    assert!(parent_in_workcell(&scene, 2, 0));
    assert!(parent_in_workcell(&scene, 1, 0));
    assert!(!parent_in_workcell(&scene, 0, 0));
    assert!(!parent_in_workcell(&scene, 2, 3));
}

#[test]
fn add_node_rejects_a_missing_parent() {
    let mut scene = Scene::new();
    assert_eq!(scene.add_node(root_node("a")), Ok(0));
    assert_eq!(scene.add_node(frame(3)), Err(SceneError::UnknownParent(3)));
    assert_eq!(scene.len(), 1);
}

#[test]
fn frame_with_visual_grandchild() {
    let scene = build(vec![root_node("cell"), frame(0), visual_mesh(1)]);
    let g = generate_workcell(&scene, 0).unwrap();
    let doc = &g.document;
    assert_eq!(doc.name, "cell");
    assert_eq!(doc.frames, vec![Placed { id: 1, parent: 0, entity: 1 }]);
    assert_eq!(doc.visuals.len(), 1);
    assert_eq!(doc.visuals[0].placed, Placed { id: 2, parent: 1, entity: 2 });
    assert_eq!(doc.visuals[0].geometry, GeometrySource::Mesh { scaled: false });
    assert!(doc.collisions.is_empty());
    assert!(doc.inertias.is_empty());
    assert!(doc.joints.is_empty());
    assert!(g.diagnostics.is_empty());
}

#[test]
fn orphan_is_left_out_and_reported() {
    // the frame's parent (1) carries no exportable marker, so it has no ID
    let scene = build(vec![
        root_node("cell"),
        Node { parent: Some(0), ..Default::default() },
        frame(1),
    ]);
    let g = generate_workcell(&scene, 0).unwrap();
    assert!(g.document.frames.is_empty());
    assert_eq!(
        g.diagnostics,
        vec![Diagnostic::ParentNotFound { kind: PayloadKind::Frame, entity: 2, parent: 1 }]
    );
}

#[test]
fn shapeless_model_is_left_out_and_reported() {
    let shapeless = Node {
        parent: Some(0),
        collision_marker: true,
        name: true,
        pose: true,
        ..Default::default()
    };
    let scene = build(vec![root_node("cell"), shapeless]);
    let g = generate_workcell(&scene, 0).unwrap();
    assert!(g.document.visuals.is_empty());
    assert!(g.document.collisions.is_empty());
    assert_eq!(g.diagnostics, vec![Diagnostic::MissingGeometry { entity: 1 }]);
}

#[test]
fn primitive_collision_and_scaled_mesh() {
    let collision = Node {
        parent: Some(0),
        collision_marker: true,
        name: true,
        pose: true,
        primitive_shape: true,
        ..Default::default()
    };
    let mut scaled = visual_mesh(0);
    scaled.scale = true;
    let scene = build(vec![root_node("cell"), collision, scaled]);
    let g = generate_workcell(&scene, 0).unwrap();
    assert_eq!(g.document.collisions.len(), 1);
    assert_eq!(g.document.collisions[0].placed, Placed { id: 1, parent: 0, entity: 1 });
    assert_eq!(g.document.collisions[0].geometry, GeometrySource::Primitive);
    assert_eq!(g.document.visuals.len(), 1);
    assert_eq!(g.document.visuals[0].geometry, GeometrySource::Mesh { scaled: true });
}

#[test]
fn inertia_and_joint_are_placed() {
    let inertial = Node {
        parent: Some(0),
        pose: true,
        mass: true,
        moment: true,
        ..Default::default()
    };
    let joint = Node {
        parent: Some(1),
        joint_properties: true,
        name: true,
        ..Default::default()
    };
    let scene = build(vec![root_node("cell"), inertial, joint]);
    let g = generate_workcell(&scene, 0).unwrap();
    assert_eq!(g.document.inertias, vec![Placed { id: 1, parent: 0, entity: 1 }]);
    assert_eq!(g.document.joints, vec![Placed { id: 2, parent: 1, entity: 2 }]);
}

#[test]
fn pending_and_foreign_entities_are_ignored() {
    let mut pending = frame(0);
    pending.pending = true;
    let scene = build(vec![root_node("cell"), pending, root_node("other"), frame(2)]);
    let g = generate_workcell(&scene, 0).unwrap();
    assert!(g.document.frames.is_empty());
    assert!(g.diagnostics.is_empty());
}

#[test]
fn package_context_fills_the_fixed_fields() {
    let c = package_context(&"arm".to_string());
    assert_eq!(c.project_name, "arm_description");
    assert_eq!(c.fixed_frame, "world");
    assert_eq!(c.urdf_file_name, "robot.urdf");
    assert_eq!(c.project_version, "0.0.1");
    assert!(c.dependencies.is_empty());
    assert_eq!(c.maintainers.len(), 1);
}

#[test]
fn package_context_placeholders() {
    let c = package_context(&"arm".to_string());
    assert_eq!(c.license, "TODO");
    assert_eq!(c.project_description, "TODO");
    assert_eq!(c.maintainers[0].name, "TODO");
    assert_eq!(c.maintainers[0].email, "todo@todo.com");
}

#[test]
fn document_lists_are_in_id_order() {
    let scene = build(vec![root_node("cell"), frame(0), frame(0), frame(1), visual_mesh(2), visual_mesh(1)]);
    let g = generate_workcell(&scene, 0).unwrap();
    let ids: Vec<u32> = g.document.frames.iter().map(|p| p.id).collect();
    assert_eq!(ids, vec![1, 2, 3]);
    let vids: Vec<u32> = g.document.visuals.iter().map(|m| m.placed.id).collect();
    assert_eq!(vids, vec![4, 5]);
}

#[test]
fn save_batch_keeps_going_after_a_failed_request() {
    let scene = build(vec![root_node("cell"), frame(0)]);
    let requests = vec![
        SaveWorkcell { root: 1, to_file: "bad.json".to_string(), format: ExportFormat::Default },
        SaveWorkcell { root: 0, to_file: "good.json".to_string(), format: ExportFormat::Default },
        SaveWorkcell { root: 0, to_file: "pkg".to_string(), format: ExportFormat::Urdf },
    ];
    let actions = save_workcell(&scene, &requests);
    assert_eq!(actions.len(), 3);
    match &actions[0] {
        SaveAction::Skip(err) => {
            assert_eq!(*err, WorkcellGenerationError::InvalidWorkcellEntity(1))
        }
        _ => panic!("expected a skipped request"),
    }
    match &actions[1] {
        SaveAction::WriteFile { path, generated } => {
            assert_eq!(path, "good.json");
            assert_eq!(generated.document.frames.len(), 1);
        }
        _ => panic!("expected a file write"),
    }
    match &actions[2] {
        SaveAction::ExportPackage { directory, context, .. } => {
            assert_eq!(directory, "pkg");
            assert_eq!(context.project_name, "cell_description");
        }
        _ => panic!("expected a package export"),
    }
}
