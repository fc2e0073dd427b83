use vstd::prelude::*;

verus! {

/// One entity of a workcell hierarchy, with the components that saving reads.
///
/// Each flag says whether the entity carries that component; the component's
/// payload stays with the host that owns the entity.
#[derive(Clone, Debug, Default)]
pub struct Node {
    pub parent: Option<usize>,
    pub pending: bool,
    pub workcell_name: Option<String>,
    pub frame_marker: bool,
    pub anchor: bool,
    pub name: bool,
    pub joint_properties: bool,
    pub pose: bool,
    pub mass: bool,
    pub moment: bool,
    pub visual_marker: bool,
    pub collision_marker: bool,
    pub asset_source: bool,
    pub primitive_shape: bool,
    pub scale: bool,
}

/// An arena of entities, indexed by position. A parent always comes before
/// its children, so the hierarchy has no cycles and index order is a
/// top-down traversal.
pub struct Scene {
    pub nodes: Vec<Node>,
}

#[derive(Clone, Copy, Debug, PartialEq, Eq, Structural)]
pub enum SceneError {
    /// The parent named for a new entity does not exist yet.
    UnknownParent(usize),
}

pub open spec fn parent_precedes(parent: Option<usize>, i: int) -> bool {
    match parent {
        Some(p) => p < i,
        None => true,
    }
}

pub open spec fn scene_wf(s: Seq<Node>) -> bool {
    forall|i: int| 0 <= i < s.len() ==> #[trigger] parent_precedes(s[i].parent, i)
}

/// `e` lies strictly below `root` in the hierarchy.
pub open spec fn is_descendant(s: Seq<Node>, e: int, root: int) -> bool
    decreases e,
{
    if 0 <= e < s.len() {
        match s[e].parent {
            Some(p) => p == root || (p < e && is_descendant(s, p as int, root)),
            None => false,
        }
    } else {
        false
    }
}

/// The entity carries one of the markers that receive a stable ID.
pub open spec fn exportable(n: Node) -> bool {
    !n.pending && (n.frame_marker || n.joint_properties || n.moment || n.visual_marker
        || n.collision_marker)
}

pub open spec fn numbered(s: Seq<Node>, root: int, e: int) -> bool {
    exportable(s[e]) && is_descendant(s, e, root)
}

/// How many entities below index `k` are numbered.
pub open spec fn numbered_before(s: Seq<Node>, root: int, k: int) -> nat
    decreases k,
{
    if k <= 0 {
        0
    } else {
        numbered_before(s, root, k - 1) + if numbered(s, root, k - 1) {
            1nat
        } else {
            0nat
        }
    }
}

/// The stable ID of `e` when saving the workcell under `root`: 0 for the
/// root, then 1, 2, ... for the numbered descendants in index order.
pub open spec fn stable_id(s: Seq<Node>, root: int, e: int) -> Option<nat> {
    if e == root {
        Some(0)
    } else if numbered(s, root, e) {
        Some(numbered_before(s, root, e) + 1)
    } else {
        None
    }
}

pub open spec fn id_matches(o: Option<u32>, v: Option<nat>) -> bool {
    match (o, v) {
        (Some(a), Some(b)) => a as nat == b,
        (None, None) => true,
        _ => false,
    }
}

pub proof fn lemma_descendant_below(s: Seq<Node>, e: int, root: int)
    requires
        scene_wf(s),
        is_descendant(s, e, root),
    ensures
        root < e,
    decreases e,
{
    let p = s[e].parent.unwrap();
    assert(parent_precedes(s[e].parent, e));
    if p != root {
        lemma_descendant_below(s, p as int, root);
    }
}

pub proof fn lemma_numbered_before_monotone(s: Seq<Node>, root: int, i: int, j: int)
    requires
        i <= j,
    ensures
        numbered_before(s, root, i) <= numbered_before(s, root, j),
    decreases j - i,
{
    if i < j {
        lemma_numbered_before_monotone(s, root, i, j - 1);
    }
}

pub proof fn lemma_numbered_before_bound(s: Seq<Node>, root: int, k: int)
    requires
        0 <= k,
    ensures
        numbered_before(s, root, k) <= k,
    decreases k,
{
    if k > 0 {
        lemma_numbered_before_bound(s, root, k - 1);
    }
}

/// Every stable ID in `1..=numbered_before(s, root, k)` belongs to a numbered
/// entity below index `k`.
pub proof fn lemma_numbered_before_onto(s: Seq<Node>, root: int, k: int, id: nat)
    requires
        1 <= id <= numbered_before(s, root, k),
    ensures
        exists|e: int|
            0 <= e < k && #[trigger] numbered(s, root, e) && numbered_before(s, root, e) + 1
                == id,
    decreases k,
{
    if id <= numbered_before(s, root, k - 1) {
        lemma_numbered_before_onto(s, root, k - 1, id);
        let e = choose|e: int|
            0 <= e < k - 1 && #[trigger] numbered(s, root, e) && numbered_before(s, root, e) + 1
                == id;
        assert(0 <= e < k && numbered(s, root, e));
    } else {
        assert(numbered(s, root, k - 1));
    }
}

/// Some entity has stable ID `id`.
pub open spec fn id_taken(s: Seq<Node>, root: int, id: nat) -> bool {
    exists|e: int| 0 <= e < s.len() && #[trigger] stable_id(s, root, e) == Some(id)
}

/// Stable IDs are a numbering: the root gets 0, no two entities share an ID,
/// and the IDs handed out are exactly `0..=n`, where `n` counts the numbered
/// descendants.
pub proof fn stable_ids_are_a_numbering(s: Seq<Node>, root: int)
    requires
        scene_wf(s),
        0 <= root < s.len(),
    ensures
        stable_id(s, root, root) == Some(0nat),
        forall|a: int, b: int|
            0 <= a < s.len() && 0 <= b < s.len() && a != b && (#[trigger] stable_id(
                s,
                root,
                a,
            )).is_some() && (#[trigger] stable_id(s, root, b)).is_some() ==> stable_id(
                s,
                root,
                a,
            ).unwrap() != stable_id(s, root, b).unwrap(),
        forall|e: int|
            0 <= e < s.len() && (#[trigger] stable_id(s, root, e)).is_some() ==> stable_id(
                s,
                root,
                e,
            ).unwrap() <= numbered_before(s, root, s.len() as int),
        forall|id: nat|
            id <= numbered_before(s, root, s.len() as int) ==> #[trigger] id_taken(s, root, id),
{
    assert forall|a: int, b: int|
        0 <= a < s.len() && 0 <= b < s.len() && a != b && (#[trigger] stable_id(
            s,
            root,
            a,
        )).is_some() && (#[trigger] stable_id(s, root, b)).is_some() implies stable_id(
        s,
        root,
        a,
    ).unwrap() != stable_id(s, root, b).unwrap() by {
        if a != root && b != root {
            if a < b {
                lemma_numbered_before_monotone(s, root, a + 1, b);
            } else {
                lemma_numbered_before_monotone(s, root, b + 1, a);
            }
        }
    }
    assert forall|e: int|
        0 <= e < s.len() && (#[trigger] stable_id(s, root, e)).is_some() implies stable_id(
        s,
        root,
        e,
    ).unwrap() <= numbered_before(s, root, s.len() as int) by {
        if e != root {
            lemma_numbered_before_monotone(s, root, e + 1, s.len() as int);
        }
    }
    assert forall|id: nat| id <= numbered_before(s, root, s.len() as int) implies #[trigger] id_taken(
        s,
        root,
        id,
    ) by {
        if id == 0 {
            assert(stable_id(s, root, root) == Some(id));
        } else {
            lemma_numbered_before_onto(s, root, s.len() as int, id);
            let e = choose|e: int|
                0 <= e < s.len() && #[trigger] numbered(s, root, e) && numbered_before(s, root, e)
                    + 1 == id;
            lemma_descendant_below(s, e, root);
            assert(stable_id(s, root, e) == Some(id));
        }
    }
}

impl Scene {
    pub open spec fn wf(&self) -> bool {
        scene_wf(self.nodes@)
    }

    pub fn new() -> (r: Scene)
        ensures
            r.wf(),
            r.nodes@.len() == 0,
    {
        Scene { nodes: Vec::new() }
    }

    /// Adds an entity whose parent, if any, already exists; returns its index.
    pub fn add_node(&mut self, node: Node) -> (r: Result<usize, SceneError>)
        requires
            old(self).wf(),
        ensures
            final(self).wf(),
            match node.parent {
                Some(p) => p >= old(self).nodes@.len(),
                None => false,
            } ==> r == Err::<usize, SceneError>(SceneError::UnknownParent(node.parent.unwrap()))
                && final(self).nodes@ == old(self).nodes@,
            r is Ok ==> r->Ok_0 == old(self).nodes@.len() && final(self).nodes@ == old(
                self,
            ).nodes@.push(node),
            r is Ok <==> match node.parent {
                Some(p) => p < old(self).nodes@.len(),
                None => true,
            },
    {
        let len = self.nodes.len();
        if let Some(p) = node.parent {
            if p >= len {
                return Err(SceneError::UnknownParent(p));
            }
        }
        self.nodes.push(node);
        proof {
            assert forall|i: int| 0 <= i < self.nodes@.len() implies #[trigger] parent_precedes(
                self.nodes@[i].parent,
                i,
            ) by {
                if i < len {
                    assert(self.nodes@[i] == old(self).nodes@[i]);
                    assert(parent_precedes(old(self).nodes@[i].parent, i));
                }
            }
        }
        Ok(len)
    }

    pub fn len(&self) -> (r: usize)
        ensures
            r == self.nodes@.len(),
    {
        self.nodes.len()
    }
}

/// Whether `entity` lies below `root` in the hierarchy.
pub fn parent_in_workcell(scene: &Scene, entity: usize, root: usize) -> (r: bool)
    requires
        scene.wf(),
        entity < scene.nodes@.len(),
    ensures
        r == is_descendant(scene.nodes@, entity as int, root as int),
{
    let ghost s = scene.nodes@;
    let mut cur: usize = entity;
    loop
        invariant
            s == scene.nodes@,
            scene_wf(s),
            cur < s.len(),
            is_descendant(s, entity as int, root as int) == is_descendant(s, cur as int, root as int),
        decreases cur,
    {
        match scene.nodes[cur].parent {
            None => return false,
            Some(p) => {
                if p == root {
                    return true;
                }
                if p >= cur {
                    return false;
                }
                cur = p;
            },
        }
    }
}

pub fn is_exportable(n: &Node) -> (r: bool)
    ensures
        r == exportable(*n),
{
    !n.pending && (n.frame_marker || n.joint_properties || n.moment || n.visual_marker
        || n.collision_marker)
}

/// Numbers the root and its exportable descendants, in index order; entry `e`
/// of the result is the stable ID of entity `e`, if it has one.
pub fn assign_site_ids(scene: &Scene, root: usize) -> (ids: Vec<Option<u32>>)
    requires
        scene.wf(),
        root < scene.nodes@.len(),
        scene.nodes@.len() <= u32::MAX,
    ensures
        ids@.len() == scene.nodes@.len(),
        forall|e: int|
            0 <= e < ids@.len() ==> id_matches(
                #[trigger] ids@[e],
                stable_id(scene.nodes@, root as int, e),
            ),
{
    let ghost s = scene.nodes@;
    let n = scene.nodes.len();
    let mut ids: Vec<Option<u32>> = Vec::new();
    let mut next: u32 = 1;
    let mut i: usize = 0;
    while i < n
        invariant
            s == scene.nodes@,
            scene_wf(s),
            n == s.len(),
            n <= u32::MAX,
            root < n,
            i <= n,
            ids@.len() == i,
            next == numbered_before(s, root as int, i as int) + 1,
            i <= root ==> next == 1,
            root < i ==> next <= i,
            forall|e: int|
                0 <= e < i ==> id_matches(#[trigger] ids@[e], stable_id(s, root as int, e)),
        decreases n - i,
    {
        proof {
            if is_descendant(s, i as int, root as int) {
                lemma_descendant_below(s, i as int, root as int);
            }
        }
        if i == root {
            ids.push(Some(0));
        } else if is_exportable(&scene.nodes[i]) && parent_in_workcell(scene, i, root) {
            ids.push(Some(next));
            next = next + 1;
        } else {
            ids.push(None);
        }
        i = i + 1;
    }
    ids
}

} // verus!
