use vstd::prelude::*;

use vstd::string::StringExecFns;

use crate::scene::{
    assign_site_ids, id_matches, is_descendant, lemma_descendant_below, lemma_numbered_before_bound,
    lemma_numbered_before_monotone, numbered_before, parent_in_workcell, parent_precedes, scene_wf,
    stable_id, Node, Scene,
};

verus! {

/// A payload placed under its parent: `id` is the entity's stable ID,
/// `parent` the stable ID of its parent, `entity` where the payload is read.
#[derive(Clone, Copy, Debug, PartialEq, Eq, Structural)]
pub struct Placed {
    pub id: u32,
    pub parent: u32,
    pub entity: usize,
}

/// Where a model's geometry comes from.
#[derive(Clone, Copy, Debug, PartialEq, Eq, Structural)]
pub enum GeometrySource {
    /// A mesh asset, with a non-uniform scale when `scaled`.
    Mesh { scaled: bool },
    /// A primitive shape.
    Primitive,
}

#[derive(Clone, Copy, Debug, PartialEq, Eq, Structural)]
pub struct ModelEntry {
    pub placed: Placed,
    pub geometry: GeometrySource,
}

/// The payload kinds of a workcell document.
#[derive(Clone, Copy, Debug, PartialEq, Eq, Structural)]
pub enum PayloadKind {
    Model,
    Frame,
    Inertia,
    Joint,
}

/// Why an entity was left out of a document.
#[derive(Clone, Copy, Debug, PartialEq, Eq, Structural)]
pub enum Diagnostic {
    /// The entity's parent has no stable ID.
    ParentNotFound { kind: PayloadKind, entity: usize, parent: usize },
    /// A visual or collision entity with neither a mesh nor a primitive shape.
    MissingGeometry { entity: usize },
}

/// A workcell document; each list is ordered by ascending stable ID.
pub struct Document {
    pub name: String,
    pub frames: Vec<Placed>,
    pub inertias: Vec<Placed>,
    pub joints: Vec<Placed>,
    pub visuals: Vec<ModelEntry>,
    pub collisions: Vec<ModelEntry>,
}

/// A document together with the entities that were skipped on the way.
pub struct Generated {
    pub document: Document,
    pub diagnostics: Vec<Diagnostic>,
}

#[derive(Clone, Copy, Debug, PartialEq, Eq, Structural)]
pub enum WorkcellGenerationError {
    /// The entity does not refer to a workcell.
    InvalidWorkcellEntity(usize),
}

impl WorkcellGenerationError {
    pub fn message(&self) -> (r: String)
        ensures
            r@ == "the specified entity does not refer to a workcell"@,
    {
        proof {
            reveal_strlit("the specified entity does not refer to a workcell");
        }
        match self {
            WorkcellGenerationError::InvalidWorkcellEntity(_) => String::from_str(
                "the specified entity does not refer to a workcell",
            ),
        }
    }
}

/// The entity takes part in the document under `root`.
pub open spec fn in_pass(s: Seq<Node>, root: int, e: int) -> bool {
    !s[e].pending && is_descendant(s, e, root) && stable_id(s, root, e).is_some()
}

pub open spec fn is_candidate(n: Node, kind: PayloadKind) -> bool {
    match kind {
        PayloadKind::Model => n.name && n.pose && (n.visual_marker || n.collision_marker),
        PayloadKind::Frame => n.anchor && n.name,
        PayloadKind::Inertia => n.pose && n.mass && n.moment,
        PayloadKind::Joint => n.joint_properties && n.name,
    }
}

/// The stable ID of the parent of `e`.
pub open spec fn parent_id(s: Seq<Node>, root: int, e: int) -> Option<nat> {
    match s[e].parent {
        Some(p) => stable_id(s, root, p as int),
        None => None,
    }
}

pub open spec fn geometry_of(n: Node) -> Option<GeometrySource> {
    if n.asset_source {
        Some(GeometrySource::Mesh { scaled: n.scale })
    } else if n.primitive_shape {
        Some(GeometrySource::Primitive)
    } else {
        None
    }
}

pub open spec fn placed_of(s: Seq<Node>, root: int, e: int) -> Placed {
    Placed {
        id: stable_id(s, root, e).unwrap() as u32,
        parent: parent_id(s, root, e).unwrap() as u32,
        entity: e as usize,
    }
}

/// What entity `e` adds to the list of `kind` (frames, inertias, joints).
pub open spec fn placed_out(s: Seq<Node>, root: int, e: int, kind: PayloadKind) -> Seq<Placed> {
    if in_pass(s, root, e) && is_candidate(s[e], kind) && parent_id(s, root, e).is_some() {
        seq![placed_of(s, root, e)]
    } else {
        seq![]
    }
}

/// What entity `e` adds to the visuals (`visual`) or the collisions.
pub open spec fn model_out(s: Seq<Node>, root: int, e: int, visual: bool) -> Seq<ModelEntry> {
    if in_pass(s, root, e) && is_candidate(s[e], PayloadKind::Model) && parent_id(
        s,
        root,
        e,
    ).is_some() && geometry_of(s[e]).is_some() && s[e].visual_marker == visual {
        seq![ModelEntry { placed: placed_of(s, root, e), geometry: geometry_of(s[e]).unwrap() }]
    } else {
        seq![]
    }
}

pub open spec fn kind_diag(s: Seq<Node>, root: int, e: int, kind: PayloadKind) -> Seq<Diagnostic> {
    if in_pass(s, root, e) && is_candidate(s[e], kind) {
        if parent_id(s, root, e).is_none() {
            seq![
                Diagnostic::ParentNotFound {
                    kind,
                    entity: e as usize,
                    parent: s[e].parent.unwrap(),
                },
            ]
        } else if kind == PayloadKind::Model && geometry_of(s[e]).is_none() {
            seq![Diagnostic::MissingGeometry { entity: e as usize }]
        } else {
            seq![]
        }
    } else {
        seq![]
    }
}

/// The diagnostics for entity `e`, one pass after the other.
pub open spec fn diag_out(s: Seq<Node>, root: int, e: int) -> Seq<Diagnostic> {
    kind_diag(s, root, e, PayloadKind::Model) + kind_diag(s, root, e, PayloadKind::Frame)
        + kind_diag(s, root, e, PayloadKind::Inertia) + kind_diag(s, root, e, PayloadKind::Joint)
}

pub open spec fn gather_placed(s: Seq<Node>, root: int, k: int, kind: PayloadKind) -> Seq<Placed>
    decreases k,
{
    if k <= 0 {
        seq![]
    } else {
        gather_placed(s, root, k - 1, kind) + placed_out(s, root, k - 1, kind)
    }
}

pub open spec fn gather_models(s: Seq<Node>, root: int, k: int, visual: bool) -> Seq<ModelEntry>
    decreases k,
{
    if k <= 0 {
        seq![]
    } else {
        gather_models(s, root, k - 1, visual) + model_out(s, root, k - 1, visual)
    }
}

pub open spec fn gather_diags(s: Seq<Node>, root: int, k: int) -> Seq<Diagnostic>
    decreases k,
{
    if k <= 0 {
        seq![]
    } else {
        gather_diags(s, root, k - 1) + diag_out(s, root, k - 1)
    }
}

/// The root denotes a workcell: it exists and carries a workcell name.
pub open spec fn is_workcell(s: Seq<Node>, root: int) -> bool {
    0 <= root < s.len() && s[root].workcell_name is Some
}

/// `g` is the document, and its diagnostics, generated for `root`.
pub open spec fn generated_from(s: Seq<Node>, root: int, g: Generated) -> bool {
    let n = s.len() as int;
    &&& g.document.name@ == s[root].workcell_name.unwrap()@
    &&& g.document.frames@ == gather_placed(s, root, n, PayloadKind::Frame)
    &&& g.document.inertias@ == gather_placed(s, root, n, PayloadKind::Inertia)
    &&& g.document.joints@ == gather_placed(s, root, n, PayloadKind::Joint)
    &&& g.document.visuals@ == gather_models(s, root, n, true)
    &&& g.document.collisions@ == gather_models(s, root, n, false)
    &&& g.diagnostics@ == gather_diags(s, root, n)
}

fn candidate(n: &Node, kind: PayloadKind) -> (r: bool)
    ensures
        r == is_candidate(*n, kind),
{
    match kind {
        PayloadKind::Model => n.name && n.pose && (n.visual_marker || n.collision_marker),
        PayloadKind::Frame => n.anchor && n.name,
        PayloadKind::Inertia => n.pose && n.mass && n.moment,
        PayloadKind::Joint => n.joint_properties && n.name,
    }
}

fn geometry(n: &Node) -> (r: Option<GeometrySource>)
    ensures
        r == geometry_of(*n),
{
    if n.asset_source {
        Some(GeometrySource::Mesh { scaled: n.scale })
    } else if n.primitive_shape {
        Some(GeometrySource::Primitive)
    } else {
        None
    }
}

/// Projects the workcell under `root` into a document. Every entity below the
/// root that is not pending and has a stable ID is placed by kind under its
/// parent's stable ID; one whose parent has no stable ID, or a model without
/// geometry, is left out and reported in the diagnostics.
pub fn generate_workcell(scene: &Scene, root: usize) -> (r: Result<
    Generated,
    WorkcellGenerationError,
>)
    requires
        scene.wf(),
        scene.nodes@.len() <= u32::MAX,
    ensures
        r is Err <==> !is_workcell(scene.nodes@, root as int),
        r is Err ==> r == Err::<Generated, WorkcellGenerationError>(
            WorkcellGenerationError::InvalidWorkcellEntity(root),
        ),
        r is Ok ==> generated_from(scene.nodes@, root as int, r->Ok_0),
{
    let ghost s = scene.nodes@;
    let n = scene.nodes.len();
    if root >= n {
        return Err(WorkcellGenerationError::InvalidWorkcellEntity(root));
    }
    let name = match &scene.nodes[root].workcell_name {
        Some(name) => name.clone(),
        None => {
            return Err(WorkcellGenerationError::InvalidWorkcellEntity(root));
        },
    };
    let ids = assign_site_ids(scene, root);
    let ghost r = root as int;
    let mut frames: Vec<Placed> = Vec::new();
    let mut inertias: Vec<Placed> = Vec::new();
    let mut joints: Vec<Placed> = Vec::new();
    let mut visuals: Vec<ModelEntry> = Vec::new();
    let mut collisions: Vec<ModelEntry> = Vec::new();
    let mut diagnostics: Vec<Diagnostic> = Vec::new();
    let mut e: usize = 0;
    while e < n
        invariant
            s == scene.nodes@,
            r == root as int,
            scene_wf(s),
            n == s.len(),
            n <= u32::MAX,
            root < n,
            e <= n,
            ids@.len() == n,
            forall|i: int| 0 <= i < n ==> id_matches(#[trigger] ids@[i], stable_id(s, r, i)),
            frames@ == gather_placed(s, r, e as int, PayloadKind::Frame),
            inertias@ == gather_placed(s, r, e as int, PayloadKind::Inertia),
            joints@ == gather_placed(s, r, e as int, PayloadKind::Joint),
            visuals@ == gather_models(s, r, e as int, true),
            collisions@ == gather_models(s, r, e as int, false),
            diagnostics@ == gather_diags(s, r, e as int),
        decreases n - e,
    {
        project_entity(
            scene,
            root,
            &ids,
            e,
            &mut frames,
            &mut inertias,
            &mut joints,
            &mut visuals,
            &mut collisions,
            &mut diagnostics,
        );
        e = e + 1;
    }
    let document = Document { name, frames, inertias, joints, visuals, collisions };
    Ok(Generated { document, diagnostics })
}

/// Adds what entity `e` contributes to each list of the document.
fn project_entity(
    scene: &Scene,
    root: usize,
    ids: &Vec<Option<u32>>,
    e: usize,
    frames: &mut Vec<Placed>,
    inertias: &mut Vec<Placed>,
    joints: &mut Vec<Placed>,
    visuals: &mut Vec<ModelEntry>,
    collisions: &mut Vec<ModelEntry>,
    diagnostics: &mut Vec<Diagnostic>,
)
    requires
        scene.wf(),
        e < scene.nodes@.len(),
        ids@.len() == scene.nodes@.len(),
        forall|i: int|
            0 <= i < ids@.len() ==> id_matches(
                #[trigger] ids@[i],
                stable_id(scene.nodes@, root as int, i),
            ),
    ensures
        final(frames)@ == old(frames)@ + placed_out(
            scene.nodes@,
            root as int,
            e as int,
            PayloadKind::Frame,
        ),
        final(inertias)@ == old(inertias)@ + placed_out(
            scene.nodes@,
            root as int,
            e as int,
            PayloadKind::Inertia,
        ),
        final(joints)@ == old(joints)@ + placed_out(
            scene.nodes@,
            root as int,
            e as int,
            PayloadKind::Joint,
        ),
        final(visuals)@ == old(visuals)@ + model_out(scene.nodes@, root as int, e as int, true),
        final(collisions)@ == old(collisions)@ + model_out(
            scene.nodes@,
            root as int,
            e as int,
            false,
        ),
        final(diagnostics)@ == old(diagnostics)@ + diag_out(scene.nodes@, root as int, e as int),
{
    let ghost s = scene.nodes@;
    let ghost r = root as int;
    let ghost ei = e as int;
    let node = &scene.nodes[e];
    assert(id_matches(ids@[ei], stable_id(s, r, ei)));
    if !node.pending && parent_in_workcell(scene, e, root) && ids[e].is_some() {
        let id = ids[e].unwrap();
        let p = node.parent.unwrap();
        assert(parent_precedes(s[ei].parent, ei));
        assert(id_matches(ids@[p as int], stable_id(s, r, p as int)));
        let pid = ids[p];
        let ghost d0 = diagnostics@;
        place_model(Ghost(s), Ghost(r), node, id, pid, e, p, visuals, collisions, diagnostics);
        place_kind(Ghost(s), Ghost(r), node, PayloadKind::Frame, id, pid, e, p, frames, diagnostics);
        place_kind(
            Ghost(s),
            Ghost(r),
            node,
            PayloadKind::Inertia,
            id,
            pid,
            e,
            p,
            inertias,
            diagnostics,
        );
        place_kind(Ghost(s), Ghost(r), node, PayloadKind::Joint, id, pid, e, p, joints, diagnostics);
        assert(diagnostics@ =~= d0 + diag_out(s, r, ei));
    } else {
        assert(!in_pass(s, r, ei));
        assert(diag_out(s, r, ei) =~= seq![]);
        assert(diagnostics@ =~= old(diagnostics)@ + diag_out(s, r, ei));
        assert(frames@ =~= old(frames)@ + placed_out(s, r, ei, PayloadKind::Frame));
        assert(inertias@ =~= old(inertias)@ + placed_out(s, r, ei, PayloadKind::Inertia));
        assert(joints@ =~= old(joints)@ + placed_out(s, r, ei, PayloadKind::Joint));
        assert(visuals@ =~= old(visuals)@ + model_out(s, r, ei, true));
        assert(collisions@ =~= old(collisions)@ + model_out(s, r, ei, false));
    }
}

/// Appends a visual or collision entity to its list, or reports why it is left out.
fn place_model(
    Ghost(s): Ghost<Seq<Node>>,
    Ghost(r): Ghost<int>,
    node: &Node,
    id: u32,
    pid: Option<u32>,
    e: usize,
    p: usize,
    visuals: &mut Vec<ModelEntry>,
    collisions: &mut Vec<ModelEntry>,
    diagnostics: &mut Vec<Diagnostic>,
)
    requires
        e < s.len(),
        s[e as int] == *node,
        in_pass(s, r, e as int),
        node.parent == Some(p),
        stable_id(s, r, e as int) == Some(id as nat),
        id_matches(pid, parent_id(s, r, e as int)),
    ensures
        final(visuals)@ == old(visuals)@ + model_out(s, r, e as int, true),
        final(collisions)@ == old(collisions)@ + model_out(s, r, e as int, false),
        final(diagnostics)@ == old(diagnostics)@ + kind_diag(s, r, e as int, PayloadKind::Model),
{
    if candidate(node, PayloadKind::Model) {
        match pid {
            None => {
                diagnostics.push(
                    Diagnostic::ParentNotFound { kind: PayloadKind::Model, entity: e, parent: p },
                );
            },
            Some(parent) => {
                match geometry(node) {
                    None => {
                        diagnostics.push(Diagnostic::MissingGeometry { entity: e });
                    },
                    Some(geometry) => {
                        let entry = ModelEntry { placed: Placed { id, parent, entity: e }, geometry };
                        assert(entry.placed == placed_of(s, r, e as int));
                        if node.visual_marker {
                            visuals.push(entry);
                        } else {
                            collisions.push(entry);
                        }
                    },
                }
            },
        }
    }
    assert(visuals@ =~= old(visuals)@ + model_out(s, r, e as int, true));
    assert(collisions@ =~= old(collisions)@ + model_out(s, r, e as int, false));
    assert(diagnostics@ =~= old(diagnostics)@ + kind_diag(s, r, e as int, PayloadKind::Model));
}

/// Appends entity `e` to the list of `kind`, or reports its missing parent ID.
fn place_kind(
    Ghost(s): Ghost<Seq<Node>>,
    Ghost(r): Ghost<int>,
    node: &Node,
    kind: PayloadKind,
    id: u32,
    pid: Option<u32>,
    e: usize,
    p: usize,
    out: &mut Vec<Placed>,
    diagnostics: &mut Vec<Diagnostic>,
)
    requires
        kind != PayloadKind::Model,
        e < s.len(),
        s[e as int] == *node,
        in_pass(s, r, e as int),
        node.parent == Some(p),
        stable_id(s, r, e as int) == Some(id as nat),
        id_matches(pid, parent_id(s, r, e as int)),
    ensures
        final(out)@ == old(out)@ + placed_out(s, r, e as int, kind),
        final(diagnostics)@ == old(diagnostics)@ + kind_diag(s, r, e as int, kind),
{
    if candidate(node, kind) {
        match pid {
            None => diagnostics.push(Diagnostic::ParentNotFound { kind, entity: e, parent: p }),
            Some(parent) => {
                let placed = Placed { id, parent, entity: e };
                assert(placed == placed_of(s, r, e as int));
                out.push(placed);
            },
        }
    }
    assert(out@ =~= old(out)@ + placed_out(s, r, e as int, kind));
    assert(diagnostics@ =~= old(diagnostics)@ + kind_diag(s, r, e as int, kind));
}

/// Each entry of a list of `kind` comes from one entity below `k`, and is
/// exactly what that entity contributes.
pub proof fn lemma_gather_placed_sources(s: Seq<Node>, root: int, k: int, kind: PayloadKind)
    requires
        k <= usize::MAX + 1,
    ensures
        forall|j: int|
            0 <= j < gather_placed(s, root, k, kind).len() ==> {
                let x = #[trigger] gather_placed(s, root, k, kind)[j];
                &&& 0 <= x.entity < k
                &&& placed_out(s, root, x.entity as int, kind) == seq![x]
            },
    decreases k,
{
    if k > 0 {
        lemma_gather_placed_sources(s, root, k - 1, kind);
        let prev = gather_placed(s, root, k - 1, kind);
        let cur = gather_placed(s, root, k, kind);
        assert forall|j: int| 0 <= j < cur.len() implies {
            let x = #[trigger] cur[j];
            &&& 0 <= x.entity < k
            &&& placed_out(s, root, x.entity as int, kind) == seq![x]
        } by {
            if j < prev.len() {
                assert(cur[j] == prev[j]);
            } else {
                assert(cur[j] == placed_out(s, root, k - 1, kind)[j - prev.len()]);
                assert(cur[j].entity as int == k - 1);
            }
        }
    }
}

/// Each model entry comes from one entity below `k`, and is exactly what
/// that entity contributes.
pub proof fn lemma_gather_models_sources(s: Seq<Node>, root: int, k: int, visual: bool)
    requires
        k <= usize::MAX + 1,
    ensures
        forall|j: int|
            0 <= j < gather_models(s, root, k, visual).len() ==> {
                let x = #[trigger] gather_models(s, root, k, visual)[j];
                &&& 0 <= x.placed.entity < k
                &&& model_out(s, root, x.placed.entity as int, visual) == seq![x]
            },
    decreases k,
{
    if k > 0 {
        lemma_gather_models_sources(s, root, k - 1, visual);
        let prev = gather_models(s, root, k - 1, visual);
        let cur = gather_models(s, root, k, visual);
        assert forall|j: int| 0 <= j < cur.len() implies {
            let x = #[trigger] cur[j];
            &&& 0 <= x.placed.entity < k
            &&& model_out(s, root, x.placed.entity as int, visual) == seq![x]
        } by {
            if j < prev.len() {
                assert(cur[j] == prev[j]);
            } else {
                assert(cur[j] == model_out(s, root, k - 1, visual)[j - prev.len()]);
                assert(cur[j].placed.entity as int == k - 1);
            }
        }
    }
}

/// The diagnostics of every entity below `k` are among the gathered ones.
pub proof fn lemma_gather_diags_contains(s: Seq<Node>, root: int, k: int, e: int, d: Diagnostic)
    requires
        0 <= e < k,
        diag_out(s, root, e).contains(d),
    ensures
        gather_diags(s, root, k).contains(d),
    decreases k,
{
    let prev = gather_diags(s, root, k - 1);
    let cur = gather_diags(s, root, k);
    if e < k - 1 {
        lemma_gather_diags_contains(s, root, k - 1, e, d);
        let j = choose|j: int| 0 <= j < prev.len() && prev[j] == d;
        assert(cur[j] == d);
    } else {
        let j = choose|j: int| 0 <= j < diag_out(s, root, e).len() && diag_out(s, root, e)[j] == d;
        assert(cur[prev.len() + j] == d);
    }
}

/// An entity whose parent has no stable ID is left out of every list of the
/// document, and each pass that would have placed it reports the missing
/// parent.
pub proof fn orphan_is_excluded_and_reported(s: Seq<Node>, root: int, e: int)
    requires
        s.len() <= usize::MAX,
        0 <= e < s.len(),
        parent_id(s, root, e) is None,
    ensures
        forall|kind: PayloadKind, j: int|
            0 <= j < gather_placed(s, root, s.len() as int, kind).len() ==> (#[trigger] gather_placed(
                s,
                root,
                s.len() as int,
                kind,
            )[j]).entity != e,
        forall|visual: bool, j: int|
            0 <= j < gather_models(s, root, s.len() as int, visual).len() ==> (
            #[trigger] gather_models(s, root, s.len() as int, visual)[j]).placed.entity != e,
        forall|kind: PayloadKind|
            in_pass(s, root, e) && #[trigger] is_candidate(s[e], kind) ==> gather_diags(
                s,
                root,
                s.len() as int,
            ).contains(
                Diagnostic::ParentNotFound { kind, entity: e as usize, parent: s[e].parent.unwrap() },
            ),
{
    let n = s.len() as int;
    assert forall|kind: PayloadKind, j: int|
        0 <= j < gather_placed(s, root, n, kind).len() implies (#[trigger] gather_placed(
        s,
        root,
        n,
        kind,
    )[j]).entity != e by {
        lemma_gather_placed_sources(s, root, n, kind);
    }
    assert forall|visual: bool, j: int|
        0 <= j < gather_models(s, root, n, visual).len() implies (#[trigger] gather_models(
        s,
        root,
        n,
        visual,
    )[j]).placed.entity != e by {
        lemma_gather_models_sources(s, root, n, visual);
    }
    assert forall|kind: PayloadKind|
        in_pass(s, root, e) && #[trigger] is_candidate(s[e], kind) implies gather_diags(
        s,
        root,
        n,
    ).contains(
        Diagnostic::ParentNotFound { kind, entity: e as usize, parent: s[e].parent.unwrap() },
    ) by {
        let d = Diagnostic::ParentNotFound {
            kind,
            entity: e as usize,
            parent: s[e].parent.unwrap(),
        };
        assert(kind_diag(s, root, e, kind) == seq![d]);
        let out = diag_out(s, root, e);
        let m = kind_diag(s, root, e, PayloadKind::Model);
        let f = kind_diag(s, root, e, PayloadKind::Frame);
        let i = kind_diag(s, root, e, PayloadKind::Inertia);
        let at: int = match kind {
            PayloadKind::Model => 0,
            PayloadKind::Frame => m.len() as int,
            PayloadKind::Inertia => (m.len() + f.len()) as int,
            PayloadKind::Joint => (m.len() + f.len() + i.len()) as int,
        };
        assert(out[at] == d);
        lemma_gather_diags_contains(s, root, n, e, d);
    }
}

/// A visual or collision entity with neither a mesh nor a primitive shape is
/// left out of the visuals and the collisions, and reported as such.
pub proof fn shapeless_model_is_excluded_and_reported(s: Seq<Node>, root: int, e: int)
    requires
        s.len() <= usize::MAX,
        0 <= e < s.len(),
        s[e].visual_marker || s[e].collision_marker,
        !s[e].asset_source,
        !s[e].primitive_shape,
    ensures
        forall|visual: bool, j: int|
            0 <= j < gather_models(s, root, s.len() as int, visual).len() ==> (
            #[trigger] gather_models(s, root, s.len() as int, visual)[j]).placed.entity != e,
        in_pass(s, root, e) && is_candidate(s[e], PayloadKind::Model) && parent_id(
            s,
            root,
            e,
        ) is Some ==> gather_diags(s, root, s.len() as int).contains(
            Diagnostic::MissingGeometry { entity: e as usize },
        ),
{
    let n = s.len() as int;
    assert forall|visual: bool, j: int|
        0 <= j < gather_models(s, root, n, visual).len() implies (#[trigger] gather_models(
        s,
        root,
        n,
        visual,
    )[j]).placed.entity != e by {
        lemma_gather_models_sources(s, root, n, visual);
    }
    if in_pass(s, root, e) && is_candidate(s[e], PayloadKind::Model) && parent_id(
        s,
        root,
        e,
    ) is Some {
        let d = Diagnostic::MissingGeometry { entity: e as usize };
        assert(diag_out(s, root, e)[0] == d);
        lemma_gather_diags_contains(s, root, n, e, d);
    }
}

/// The entries of a list of `kind` come from strictly increasing entities.
pub proof fn lemma_gather_placed_entity_order(s: Seq<Node>, root: int, k: int, kind: PayloadKind)
    requires
        k <= usize::MAX + 1,
    ensures
        forall|i: int, j: int|
            0 <= i < j < gather_placed(s, root, k, kind).len() ==> (#[trigger] gather_placed(
                s,
                root,
                k,
                kind,
            )[i]).entity < (#[trigger] gather_placed(s, root, k, kind)[j]).entity,
    decreases k,
{
    if k > 0 {
        lemma_gather_placed_entity_order(s, root, k - 1, kind);
        lemma_gather_placed_sources(s, root, k - 1, kind);
        lemma_gather_placed_sources(s, root, k, kind);
        let prev = gather_placed(s, root, k - 1, kind);
        let cur = gather_placed(s, root, k, kind);
        assert forall|i: int, j: int| 0 <= i < j < cur.len() implies (#[trigger] cur[i]).entity < (
        #[trigger] cur[j]).entity by {
            if j < prev.len() {
                assert(cur[i] == prev[i] && cur[j] == prev[j]);
            } else {
                assert(cur[i] == prev[i]);
                assert(cur[j] == placed_out(s, root, k - 1, kind)[j - prev.len()]);
            }
        }
    }
}

/// The model entries come from strictly increasing entities.
pub proof fn lemma_gather_models_entity_order(s: Seq<Node>, root: int, k: int, visual: bool)
    requires
        k <= usize::MAX + 1,
    ensures
        forall|i: int, j: int|
            0 <= i < j < gather_models(s, root, k, visual).len() ==> (#[trigger] gather_models(
                s,
                root,
                k,
                visual,
            )[i]).placed.entity < (#[trigger] gather_models(s, root, k, visual)[j]).placed.entity,
    decreases k,
{
    if k > 0 {
        lemma_gather_models_entity_order(s, root, k - 1, visual);
        lemma_gather_models_sources(s, root, k - 1, visual);
        lemma_gather_models_sources(s, root, k, visual);
        let prev = gather_models(s, root, k - 1, visual);
        let cur = gather_models(s, root, k, visual);
        assert forall|i: int, j: int| 0 <= i < j < cur.len() implies (
        #[trigger] cur[i]).placed.entity < (#[trigger] cur[j]).placed.entity by {
            if j < prev.len() {
                assert(cur[i] == prev[i] && cur[j] == prev[j]);
            } else {
                assert(cur[i] == prev[i]);
                assert(cur[j] == model_out(s, root, k - 1, visual)[j - prev.len()]);
            }
        }
    }
}

/// A placed entry of entity `e` carries the stable ID of `e`, which is one
/// more than the count of numbered entities before it.
pub proof fn lemma_placed_id(s: Seq<Node>, root: int, e: int, x: Placed)
    requires
        scene_wf(s),
        s.len() <= u32::MAX,
        0 <= e < s.len(),
        in_pass(s, root, e),
        x == placed_of(s, root, e),
    ensures
        x.id as int == numbered_before(s, root, e) + 1,
{
    lemma_descendant_below(s, e, root);
    lemma_numbered_before_bound(s, root, e);
}

/// Each list of the document is in strictly ascending stable-ID order, so no
/// stable ID has two entries in one list.
pub proof fn document_lists_ascend(s: Seq<Node>, root: int)
    requires
        scene_wf(s),
        s.len() <= u32::MAX,
    ensures
        forall|kind: PayloadKind, i: int, j: int|
            0 <= i < j < gather_placed(s, root, s.len() as int, kind).len() ==> (
            #[trigger] gather_placed(s, root, s.len() as int, kind)[i]).id < (
            #[trigger] gather_placed(s, root, s.len() as int, kind)[j]).id,
        forall|visual: bool, i: int, j: int|
            0 <= i < j < gather_models(s, root, s.len() as int, visual).len() ==> (
            #[trigger] gather_models(s, root, s.len() as int, visual)[i]).placed.id < (
            #[trigger] gather_models(s, root, s.len() as int, visual)[j]).placed.id,
{
    let n = s.len() as int;
    assert forall|kind: PayloadKind, i: int, j: int|
        0 <= i < j < gather_placed(s, root, n, kind).len() implies (#[trigger] gather_placed(
        s,
        root,
        n,
        kind,
    )[i]).id < (#[trigger] gather_placed(s, root, n, kind)[j]).id by {
        lemma_gather_placed_sources(s, root, n, kind);
        lemma_gather_placed_entity_order(s, root, n, kind);
        let x = gather_placed(s, root, n, kind)[i];
        let y = gather_placed(s, root, n, kind)[j];
        assert(placed_out(s, root, x.entity as int, kind) == seq![x]);
        assert(placed_out(s, root, x.entity as int, kind)[0] == x);
        assert(placed_out(s, root, y.entity as int, kind) == seq![y]);
        assert(placed_out(s, root, y.entity as int, kind)[0] == y);
        lemma_placed_id(s, root, x.entity as int, x);
        lemma_placed_id(s, root, y.entity as int, y);
        lemma_numbered_before_monotone(s, root, x.entity as int + 1, y.entity as int);
    }
    assert forall|visual: bool, i: int, j: int|
        0 <= i < j < gather_models(s, root, n, visual).len() implies (#[trigger] gather_models(
        s,
        root,
        n,
        visual,
    )[i]).placed.id < (#[trigger] gather_models(s, root, n, visual)[j]).placed.id by {
        lemma_gather_models_sources(s, root, n, visual);
        lemma_gather_models_entity_order(s, root, n, visual);
        let x = gather_models(s, root, n, visual)[i];
        let y = gather_models(s, root, n, visual)[j];
        assert(model_out(s, root, x.placed.entity as int, visual) == seq![x]);
        assert(model_out(s, root, x.placed.entity as int, visual)[0] == x);
        assert(model_out(s, root, y.placed.entity as int, visual) == seq![y]);
        assert(model_out(s, root, y.placed.entity as int, visual)[0] == y);
        lemma_placed_id(s, root, x.placed.entity as int, x.placed);
        lemma_placed_id(s, root, y.placed.entity as int, y.placed);
        lemma_numbered_before_monotone(
            s,
            root,
            x.placed.entity as int + 1,
            y.placed.entity as int,
        );
    }
}

} // verus!
