//! Walking the b-rep of a placed solid into scene-tree nodes.
//!
//! The builder hands out node ids, remembers for each entity key the rendered
//! ids that highlight it, and records the geometry of each rendered id once.
//! Within one placed instance an entity gets one id (`imap`); distinct
//! instances of a shared part get distinct ids.
//!
//! What a walk does to the builder is stated as a run of `Step`s: the ids it
//! hands out, the highlight ids it records, and the geometry it requests, in
//! walk order.
use vstd::prelude::*;
use vstd::string::StringExecFns;
use std::collections::HashMap;
use crate::labels::{
    edge_label, edge_label_meta, edge_meta, face_label, face_label_meta, face_meta, solid_meta,
    solid_meta_rows, vertex_meta, vertex_meta_rows,
};
use crate::model::{faces_edges_in, BoundData, FaceData, SceneModel, VoidData};
use crate::tree::{metas_view, Frame, GeomRequest, Meta, Node, NodeKind};

verus! {

broadcast use vstd::std_specs::hash::group_hash_axioms;

/// The id after `n`; the counter wraps around as unsigned arithmetic does.
pub open spec fn wrap_inc(n: u32) -> u32 {
    if n == u32::MAX {
        0
    } else {
        (n + 1) as u32
    }
}

/// The builder's state as the specification sees it.
pub ghost struct BState {
    pub next: u32,
    /// Entity key -> id, within the current placed instance.
    pub imap: Map<u64, u32>,
    /// Entity key -> rendered ids that highlight it.
    pub hl: Map<u64, Seq<u32>>,
    /// Rendered id -> its geometry.
    pub geom: Map<u32, GeomRequest>,
}

/// One effect of the walk on the builder.
pub ghost enum Step {
    /// The id of an entity in the current instance: the one it has, else the
    /// next id.
    Id(u64),
    /// Append to the highlight ids of the first key the ids of the listed keys.
    Hl(u64, Seq<u64>),
    /// Record the geometry of the key's id, unless that id has one already.
    Geom(u64, GeomRequest),
    /// Hand out the next id (to a node that is no entity of an instance).
    Fresh,
    /// Start a placed instance: no entity has an id in it yet.
    NewInstance,
}

pub open spec fn hl_get(hl: Map<u64, Seq<u32>>, k: u64) -> Seq<u32> {
    if hl.contains_key(k) {
        hl[k]
    } else {
        Seq::empty()
    }
}

pub open spec fn ids_of(imap: Map<u64, u32>, keys: Seq<u64>) -> Seq<u32> {
    keys.map_values(|k: u64| imap[k])
}

pub open spec fn apply_step(s: BState, st: Step) -> BState {
    match st {
        Step::Id(k) => if s.imap.contains_key(k) {
            s
        } else {
            BState { next: wrap_inc(s.next), imap: s.imap.insert(k, s.next), ..s }
        },
        Step::Hl(t, ks) => BState {
            hl: s.hl.insert(t, hl_get(s.hl, t) + ids_of(s.imap, ks)),
            ..s
        },
        Step::Geom(k, r) => if s.geom.contains_key(s.imap[k]) {
            s
        } else {
            BState { geom: s.geom.insert(s.imap[k], r), ..s }
        },
        Step::Fresh => BState { next: wrap_inc(s.next), ..s },
        Step::NewInstance => BState { imap: Map::empty(), ..s },
    }
}

/// The state without the instance map (which each placed instance starts
/// afresh).
pub open spec fn proj(s: BState) -> BState {
    BState { imap: Map::empty(), ..s }
}

/// The state after the steps, in order.
pub open spec fn run(s: BState, steps: Seq<Step>) -> BState
    decreases steps.len(),
{
    if steps.len() == 0 {
        s
    } else {
        apply_step(run(s, steps.drop_last()), steps.last())
    }
}

pub proof fn lemma_run_append(s: BState, a: Seq<Step>, b: Seq<Step>)
    ensures
        run(s, a + b) == run(run(s, a), b),
    decreases b.len(),
{
    if b.len() == 0 {
        assert(a + b =~= a);
    } else {
        lemma_run_append(s, a, b.drop_last());
        assert((a + b).drop_last() =~= a + b.drop_last());
    }
}

pub proof fn lemma_run_push(s: BState, steps: Seq<Step>, x: Step)
    ensures
        run(s, steps.push(x)) == apply_step(run(s, steps), x),
{
    assert(steps.push(x).drop_last() =~= steps);
}

pub proof fn lemma_submap_get(i1: Map<u64, u32>, i2: Map<u64, u32>, k: u64)
    requires
        i1.submap_of(i2),
        i1.contains_key(k),
    ensures
        i2.contains_key(k),
        i2[k] == i1[k],
{
    assert(i1.dom().contains(k) ==> i2.dom().contains(k) && i1[k] == i2[k]);
}

pub proof fn lemma_submap_refl(i: Map<u64, u32>)
    ensures
        i.submap_of(i),
{
}

/// Every key of `ks` has an id.
pub open spec fn keys_in(imap: Map<u64, u32>, ks: Seq<u64>) -> bool {
    forall|i: int| 0 <= i < ks.len() ==> imap.contains_key(#[trigger] ks[i])
}

pub proof fn lemma_ids_of_grow(i1: Map<u64, u32>, i2: Map<u64, u32>, ks: Seq<u64>)
    requires
        keys_in(i1, ks),
        i1.submap_of(i2),
    ensures
        keys_in(i2, ks),
        ids_of(i1, ks) == ids_of(i2, ks),
{
    assert forall|i: int| 0 <= i < ks.len() implies i2.contains_key(#[trigger] ks[i]) by {
        lemma_submap_get(i1, i2, ks[i]);
    }
    assert forall|i: int| 0 <= i < ks.len() implies #[trigger] ids_of(i1, ks)[i] == ids_of(i2, ks)[i] by {
        lemma_submap_get(i1, i2, ks[i]);
    }
    assert(ids_of(i1, ks) =~= ids_of(i2, ks));
}

pub proof fn lemma_ids_of_append(imap: Map<u64, u32>, a: Seq<u64>, b: Seq<u64>)
    ensures
        ids_of(imap, a + b) == ids_of(imap, a) + ids_of(imap, b),
{
    assert(ids_of(imap, a + b) =~= ids_of(imap, a) + ids_of(imap, b));
}

/// A geometry request refers to an existing edge, vertex, mesh and frame.
pub open spec fn request_valid(m: SceneModel, r: GeomRequest, n_frames: nat) -> bool {
    match r {
        GeomRequest::Line { edge, frame } => edge < m.edges@.len() && frame < n_frames,
        GeomRequest::Point { vertex, frame } => vertex < m.vertices@.len() && frame < n_frames,
        GeomRequest::Mesh { mesh } => mesh < m.meshes@.len(),
    }
}

pub open spec fn geom_valid(m: SceneModel, geom: Map<u32, GeomRequest>, n_frames: nat) -> bool {
    forall|id: u32| #[trigger] geom.contains_key(id) ==> request_valid(m, geom[id], n_frames)
}

pub open spec fn hl_view(m: Map<u64, Vec<u32>>) -> Map<u64, Seq<u32>> {
    m.map_values(|v: Vec<u32>| v@)
}

pub struct Builder {
    pub next: u32,
    /// Rendered id -> its geometry.
    pub geom: HashMap<u32, GeomRequest>,
    /// Entity key -> rendered ids (edge lines, vertex points) under it,
    /// accumulated across every placed instance.
    pub hl_ids: HashMap<u64, Vec<u32>>,
    /// The placed instances, by index.
    pub frames: Vec<Frame>,
}

impl Builder {
    pub open spec fn state(&self, imap: Map<u64, u32>) -> BState {
        BState { next: self.next, imap, hl: hl_view(self.hl_ids@), geom: self.geom@ }
    }

    /// A fresh builder: ids from 0, nothing recorded, one instance at the origin.
    pub fn new() -> (b: Builder)
        ensures
            b.next == 0,
            b.geom@ == Map::<u32, GeomRequest>::empty(),
            hl_view(b.hl_ids@) == Map::<u64, Seq<u32>>::empty(),
            b.frames@ == seq![Frame::Origin],
    {
        let b = Builder {
            next: 0,
            geom: HashMap::new(),
            hl_ids: HashMap::new(),
            frames: vec![Frame::Origin],
        };
        assert(hl_view(b.hl_ids@) =~= Map::<u64, Seq<u32>>::empty());
        b
    }

    /// The next id.
    pub fn next(&mut self) -> (i: u32)
        ensures
            i == old(self).next,
            final(self).next == wrap_inc(old(self).next),
            final(self).geom@ == old(self).geom@,
            final(self).hl_ids@ == old(self).hl_ids@,
            final(self).frames@ == old(self).frames@,
    {
        let i = self.next;
        self.next = if self.next == u32::MAX { 0 } else { self.next + 1 };
        i
    }

    /// The id of `key` in the placed instance `imap`: the one it has, else the
    /// next id.
    pub fn imap_id(&mut self, imap: &mut HashMap<u64, u32>, key: u64) -> (i: u32)
        ensures
            final(self).state(final(imap)@) == apply_step(old(self).state(old(imap)@), Step::Id(key)),
            final(self).frames@ == old(self).frames@,
            final(imap)@.contains_key(key),
            i == final(imap)@[key],
            old(imap)@.submap_of(final(imap)@),
    {
        match imap.get(&key) {
            Some(i) => {
                return *i;
            },
            None => {},
        }
        let i = self.next();
        imap.insert(key, i);
        i
    }

    /// Appends `ids` to the highlight ids of `key`.
    pub fn hl_extend(&mut self, key: u64, ids: &Vec<u32>)
        ensures
            hl_view(final(self).hl_ids@) == hl_view(old(self).hl_ids@).insert(
                key,
                hl_get(hl_view(old(self).hl_ids@), key) + ids@,
            ),
            final(self).next == old(self).next,
            final(self).geom@ == old(self).geom@,
            final(self).frames@ == old(self).frames@,
    {
        let mut v: Vec<u32> = match self.hl_ids.remove(&key) {
            Some(v) => v,
            None => Vec::new(),
        };
        let ghost v0 = v@;
        let mut i: usize = 0;
        while i < ids.len()
            invariant
                i <= ids.len(),
                v@ == v0 + ids@.take(i as int),
            decreases ids.len() - i,
        {
            v.push(ids[i]);
            i = i + 1;
            assert(v@ =~= v0 + ids@.take(i as int));
        }
        assert(ids@.take(ids.len() as int) =~= ids@);
        self.hl_ids.insert(key, v);
        assert(hl_view(self.hl_ids@) =~= hl_view(old(self).hl_ids@).insert(
            key,
            hl_get(hl_view(old(self).hl_ids@), key) + ids@,
        ));
    }

    /// Appends `id` to the highlight ids of `key`.
    pub fn hl_push(&mut self, key: u64, id: u32)
        ensures
            hl_view(final(self).hl_ids@) == hl_view(old(self).hl_ids@).insert(
                key,
                hl_get(hl_view(old(self).hl_ids@), key) + seq![id],
            ),
            final(self).next == old(self).next,
            final(self).geom@ == old(self).geom@,
            final(self).frames@ == old(self).frames@,
    {
        let mut v: Vec<u32> = match self.hl_ids.remove(&key) {
            Some(v) => v,
            None => Vec::new(),
        };
        let ghost v0 = v@;
        assert(v0 == hl_get(hl_view(old(self).hl_ids@), key));
        v.push(id);
        assert(v@ =~= v0 + seq![id]);
        self.hl_ids.insert(key, v);
        assert(hl_view(self.hl_ids@) =~= hl_view(old(self).hl_ids@).insert(
            key,
            hl_get(hl_view(old(self).hl_ids@), key) + seq![id],
        ));
    }

    /// Records `req` as the geometry of `id`, unless `id` has one already.
    pub fn geom_once(&mut self, id: u32, req: GeomRequest)
        ensures
            final(self).geom@ == if old(self).geom@.contains_key(id) {
                old(self).geom@
            } else {
                old(self).geom@.insert(id, req)
            },
            final(self).next == old(self).next,
            final(self).hl_ids@ == old(self).hl_ids@,
            final(self).frames@ == old(self).frames@,
    {
        if !self.geom.contains_key(&id) {
            self.geom.insert(id, req);
        }
    }
}


// ---------- the walk, as steps and node shapes ----------

pub open spec fn vertex_steps(m: SceneModel, vi: usize, frame: usize) -> Seq<Step> {
    let v = m.vertices@[vi as int];
    seq![Step::Id(v.key)] + match v.point {
        Some(p) => seq![
            Step::Hl(v.key, seq![v.key]),
            Step::Hl(p.key, seq![v.key]),
            Step::Geom(v.key, GeomRequest::Point { vertex: vi, frame }),
        ],
        None => Seq::empty(),
    }
}

/// A vertex node: the vertex's id in the instance, its coordinates.
pub open spec fn vertex_node_ok(m: SceneModel, vi: usize, imap: Map<u64, u32>, n: Node) -> bool {
    let v = m.vertices@[vi as int];
    &&& imap.contains_key(v.key)
    &&& n.id == imap[v.key]
    &&& n.kind == NodeKind::Vertex
    &&& n.label@ == "Vertex"@
    &&& metas_view(n.meta@) == vertex_meta(v)
    &&& n.children@.len() == 0
}

/// The vertices an edge ends at: start, then end, where present.
pub open spec fn edge_ends(m: SceneModel, ei: usize) -> Seq<usize> {
    let e = m.edges@[ei as int];
    (match e.start {
        Some(v) => seq![v],
        None => Seq::empty(),
    }) + (match e.end {
        Some(v) => seq![v],
        None => Seq::empty(),
    })
}

pub open spec fn vertices_steps(m: SceneModel, vs: Seq<usize>, frame: usize) -> Seq<Step>
    decreases vs.len(),
{
    if vs.len() == 0 {
        Seq::empty()
    } else {
        vertices_steps(m, vs.drop_last(), frame) + vertex_steps(m, vs.last(), frame)
    }
}

pub open spec fn edge_steps(m: SceneModel, ei: usize, frame: usize) -> Seq<Step> {
    let e = m.edges@[ei as int];
    seq![
        Step::Id(e.key),
        Step::Hl(e.key, seq![e.key]),
        Step::Geom(e.key, GeomRequest::Line { edge: ei, frame }),
    ] + vertices_steps(m, edge_ends(m, ei), frame)
}

/// An edge node: the edge's id, curve rows, one child per end vertex.
pub open spec fn edge_node_ok(m: SceneModel, ei: usize, imap: Map<u64, u32>, n: Node) -> bool {
    let e = m.edges@[ei as int];
    let ends = edge_ends(m, ei);
    &&& imap.contains_key(e.key)
    &&& n.id == imap[e.key]
    &&& n.kind == NodeKind::Edge
    &&& n.label@ == edge_label(e)
    &&& metas_view(n.meta@) == edge_meta(e)
    &&& n.children@.len() == ends.len()
    &&& forall|i: int|
        0 <= i < ends.len() ==> vertex_node_ok(m, ends[i], imap, #[trigger] n.children@[i])
}

pub proof fn lemma_vertex_ok_grow(
    m: SceneModel,
    vi: usize,
    i1: Map<u64, u32>,
    i2: Map<u64, u32>,
    n: Node,
)
    requires
        vertex_node_ok(m, vi, i1, n),
        i1.submap_of(i2),
    ensures
        vertex_node_ok(m, vi, i2, n),
{
    lemma_submap_get(i1, i2, m.vertices@[vi as int].key);
}

pub proof fn lemma_edge_ok_grow(m: SceneModel, ei: usize, i1: Map<u64, u32>, i2: Map<u64, u32>, n: Node)
    requires
        edge_node_ok(m, ei, i1, n),
        i1.submap_of(i2),
    ensures
        edge_node_ok(m, ei, i2, n),
{
    lemma_submap_get(i1, i2, m.edges@[ei as int].key);
    let ends = edge_ends(m, ei);
    assert forall|i: int| 0 <= i < ends.len() implies vertex_node_ok(
        m,
        ends[i],
        i2,
        #[trigger] n.children@[i],
    ) by {
        lemma_vertex_ok_grow(m, ends[i], i1, i2, n.children@[i]);
    }
}

pub open spec fn edges_steps(m: SceneModel, es: Seq<usize>, frame: usize) -> Seq<Step>
    decreases es.len(),
{
    if es.len() == 0 {
        Seq::empty()
    } else {
        edges_steps(m, es.drop_last(), frame) + edge_steps(m, es.last(), frame)
    }
}

pub open spec fn bound_steps(m: SceneModel, b: BoundData, frame: usize) -> Seq<Step> {
    seq![Step::Id(b.key)] + edges_steps(m, b.edges@, frame)
}

/// The keys of the listed edges.
pub open spec fn edge_keys(m: SceneModel, es: Seq<usize>) -> Seq<u64> {
    es.map_values(|e: usize| m.edges@[e as int].key)
}

/// A bound node: the bound's id, one child per edge, in the bound's order.
pub open spec fn bound_node_ok(m: SceneModel, b: BoundData, imap: Map<u64, u32>, n: Node) -> bool {
    &&& imap.contains_key(b.key)
    &&& n.id == imap[b.key]
    &&& n.kind == NodeKind::Bound
    &&& n.label@ == "Bound"@
    &&& n.meta@.len() == 0
    &&& n.children@.len() == b.edges@.len()
    &&& forall|i: int|
        0 <= i < b.edges@.len() ==> edge_node_ok(m, b.edges@[i], imap, #[trigger] n.children@[i])
}

pub open spec fn bounds_steps(m: SceneModel, bs: Seq<BoundData>, frame: usize) -> Seq<Step>
    decreases bs.len(),
{
    if bs.len() == 0 {
        Seq::empty()
    } else {
        bounds_steps(m, bs.drop_last(), frame) + bound_steps(m, bs.last(), frame)
    }
}

/// The keys of the edges of the bounds, in order.
pub open spec fn bounds_edge_keys(m: SceneModel, bs: Seq<BoundData>) -> Seq<u64>
    decreases bs.len(),
{
    if bs.len() == 0 {
        Seq::empty()
    } else {
        bounds_edge_keys(m, bs.drop_last()) + edge_keys(m, bs.last().edges@)
    }
}

/// A face: its bounds, then its edges highlight it.
pub open spec fn face_steps(m: SceneModel, f: FaceData, frame: usize) -> Seq<Step> {
    seq![Step::Id(f.key)] + bounds_steps(m, f.bounds@, frame) + seq![
        Step::Hl(f.key, bounds_edge_keys(m, f.bounds@)),
    ]
}

/// A face node: the face's id and rows, one child per bound.
pub open spec fn face_node_ok(m: SceneModel, f: FaceData, imap: Map<u64, u32>, n: Node) -> bool {
    &&& imap.contains_key(f.key)
    &&& n.id == imap[f.key]
    &&& n.kind == NodeKind::Face
    &&& n.label@ == face_label(f)
    &&& metas_view(n.meta@) == face_meta(f)
    &&& n.children@.len() == f.bounds@.len()
    &&& forall|i: int|
        0 <= i < f.bounds@.len() ==> bound_node_ok(m, f.bounds@[i], imap, #[trigger] n.children@[i])
}

pub open spec fn faces_steps(m: SceneModel, fs: Seq<FaceData>, frame: usize) -> Seq<Step>
    decreases fs.len(),
{
    if fs.len() == 0 {
        Seq::empty()
    } else {
        faces_steps(m, fs.drop_last(), frame) + face_steps(m, fs.last(), frame)
    }
}

pub open spec fn faces_edge_keys(m: SceneModel, fs: Seq<FaceData>) -> Seq<u64>
    decreases fs.len(),
{
    if fs.len() == 0 {
        Seq::empty()
    } else {
        faces_edge_keys(m, fs.drop_last()) + bounds_edge_keys(m, fs.last().bounds@)
    }
}

/// The cavities of a solid: each its shell's id, then its faces.
pub open spec fn voids_steps(m: SceneModel, cs: Seq<VoidData>, frame: usize) -> Seq<Step>
    decreases cs.len(),
{
    if cs.len() == 0 {
        Seq::empty()
    } else {
        voids_steps(m, cs.drop_last(), frame) + seq![Step::Id(cs.last().key)] + faces_steps(
            m,
            cs.last().faces@,
            frame,
        )
    }
}

pub open spec fn voids_edge_keys(m: SceneModel, cs: Seq<VoidData>) -> Seq<u64>
    decreases cs.len(),
{
    if cs.len() == 0 {
        Seq::empty()
    } else {
        voids_edge_keys(m, cs.drop_last()) + faces_edge_keys(m, cs.last().faces@)
    }
}

/// A solid: its outer faces, its cavities, then all their edges highlight it.
pub open spec fn solid_steps(m: SceneModel, si: usize, frame: usize) -> Seq<Step> {
    let s = m.solids@[si as int];
    seq![Step::Id(s.key)] + faces_steps(m, s.faces@, frame) + voids_steps(m, s.voids@, frame) + seq![
        Step::Hl(s.key, faces_edge_keys(m, s.faces@) + voids_edge_keys(m, s.voids@)),
    ]
}

/// Face nodes, one per face of the list.
pub open spec fn faces_ok(m: SceneModel, fs: Seq<FaceData>, imap: Map<u64, u32>, nodes: Seq<Node>) -> bool {
    &&& nodes.len() == fs.len()
    &&& forall|i: int| 0 <= i < fs.len() ==> face_node_ok(m, fs[i], imap, #[trigger] nodes[i])
}

/// A cavity node: its shell's id, "Void", one child per face of the shell.
pub open spec fn void_node_ok(m: SceneModel, cavity: VoidData, imap: Map<u64, u32>, n: Node) -> bool {
    &&& imap.contains_key(cavity.key)
    &&& n.id == imap[cavity.key]
    &&& n.kind == NodeKind::Void
    &&& n.label@ == "Void"@
    &&& n.meta@.len() == 0
    &&& faces_ok(m, cavity.faces@, imap, n.children@)
}

/// A solid node: the solid's id and rows, one child per outer face, then one
/// per cavity.
pub open spec fn solid_node_ok(m: SceneModel, si: usize, imap: Map<u64, u32>, n: Node) -> bool {
    let s = m.solids@[si as int];
    &&& imap.contains_key(s.key)
    &&& n.id == imap[s.key]
    &&& n.kind == NodeKind::Solid
    &&& n.label@ == "Solid"@
    &&& metas_view(n.meta@) == solid_meta(s)
    &&& n.children@.len() == s.faces@.len() + s.voids@.len()
    &&& faces_ok(m, s.faces@, imap, n.children@.take(s.faces@.len() as int))
    &&& forall|c: int|
        #![trigger s.voids@[c]]
        0 <= c < s.voids@.len() ==> void_node_ok(
            m,
            s.voids@[c],
            imap,
            n.children@[s.faces@.len() + c],
        )
}

pub proof fn lemma_bound_ok_grow(m: SceneModel, b: BoundData, i1: Map<u64, u32>, i2: Map<u64, u32>, n: Node)
    requires
        bound_node_ok(m, b, i1, n),
        i1.submap_of(i2),
    ensures
        bound_node_ok(m, b, i2, n),
{
    lemma_submap_get(i1, i2, b.key);
    assert forall|i: int| 0 <= i < b.edges@.len() implies edge_node_ok(
        m,
        b.edges@[i],
        i2,
        #[trigger] n.children@[i],
    ) by {
        lemma_edge_ok_grow(m, b.edges@[i], i1, i2, n.children@[i]);
    }
}

pub proof fn lemma_face_ok_grow(m: SceneModel, f: FaceData, i1: Map<u64, u32>, i2: Map<u64, u32>, n: Node)
    requires
        face_node_ok(m, f, i1, n),
        i1.submap_of(i2),
    ensures
        face_node_ok(m, f, i2, n),
{
    lemma_submap_get(i1, i2, f.key);
    assert forall|i: int| 0 <= i < f.bounds@.len() implies bound_node_ok(
        m,
        f.bounds@[i],
        i2,
        #[trigger] n.children@[i],
    ) by {
        lemma_bound_ok_grow(m, f.bounds@[i], i1, i2, n.children@[i]);
    }
}

pub proof fn lemma_faces_ok_grow(m: SceneModel, fs: Seq<FaceData>, i1: Map<u64, u32>, i2: Map<u64, u32>, nodes: Seq<Node>)
    requires
        faces_ok(m, fs, i1, nodes),
        i1.submap_of(i2),
    ensures
        faces_ok(m, fs, i2, nodes),
{
    assert forall|i: int| 0 <= i < fs.len() implies face_node_ok(m, fs[i], i2, #[trigger] nodes[i]) by {
        lemma_face_ok_grow(m, fs[i], i1, i2, nodes[i]);
    }
}

pub proof fn lemma_solid_ok_grow(m: SceneModel, si: usize, i1: Map<u64, u32>, i2: Map<u64, u32>, n: Node)
    requires
        solid_node_ok(m, si, i1, n),
        i1.submap_of(i2),
    ensures
        solid_node_ok(m, si, i2, n),
{
    let s = m.solids@[si as int];
    lemma_submap_get(i1, i2, s.key);
    lemma_faces_ok_grow(m, s.faces@, i1, i2, n.children@.take(s.faces@.len() as int));
    assert forall|c: int|
        #![trigger s.voids@[c]]
        0 <= c < s.voids@.len() implies void_node_ok(
            m,
            s.voids@[c],
            i2,
            n.children@[s.faces@.len() + c],
        ) by {
        let v = n.children@[s.faces@.len() + c];
        lemma_submap_get(i1, i2, s.voids@[c].key);
        lemma_faces_ok_grow(m, s.voids@[c].faces@, i1, i2, v.children@);
    }
}

impl Builder {
    /// A vertex of a placed instance: its node. Where the vertex has a point,
    /// the point is recorded as the vertex's geometry once, and both the vertex
    /// and its point highlight it; a vertex without a point renders nothing and
    /// highlights nothing.
    pub fn vertex_node(
        &mut self,
        m: &SceneModel,
        vi: usize,
        frame: usize,
        imap: &mut HashMap<u64, u32>,
    ) -> (n: Node)
        requires
            frame < old(self).frames@.len(),
            geom_valid(*m, old(self).geom@, old(self).frames@.len()),
            vi < m.vertices@.len(),
        ensures
            old(imap)@.submap_of(final(imap)@),
            geom_valid(*m, final(self).geom@, final(self).frames@.len()),
            final(self).state(final(imap)@) == run(
                old(self).state(old(imap)@),
                vertex_steps(*m, vi, frame),
            ),
            final(self).frames@ == old(self).frames@,
            vertex_node_ok(*m, vi, final(imap)@, n),
    {
        let ghost s0 = self.state(imap@);
        let v = &m.vertices[vi];
        let vid = self.imap_id(imap, v.key);
        proof {
            lemma_run_push(s0, seq![], Step::Id(v.key));
            assert(seq![Step::Id(v.key)] =~= Seq::<Step>::empty().push(Step::Id(v.key)));
        }
        let ghost done = seq![Step::Id(v.key)];
        assert(self.state(imap@) == run(s0, done));
        let meta = vertex_meta_rows(v);
        match &v.point {
            Some(p) => {
                // Only a vertex with a point renders, so only then does it
                // highlight anything.
                self.hl_push(v.key, vid);
                proof {
                    lemma_run_push(s0, done, Step::Hl(v.key, seq![v.key]));
                    assert(ids_of(imap@, seq![v.key]) =~= seq![vid]);
                    done = done.push(Step::Hl(v.key, seq![v.key]));
                }
                assert(self.state(imap@) == run(s0, done));
                self.hl_push(p.key, vid);
                proof {
                    lemma_run_push(s0, done, Step::Hl(p.key, seq![v.key]));
                    assert(ids_of(imap@, seq![v.key]) =~= seq![vid]);
                    done = done.push(Step::Hl(p.key, seq![v.key]));
                }
                assert(self.state(imap@) == run(s0, done));
                self.geom_once(vid, GeomRequest::Point { vertex: vi, frame });
                proof {
                    lemma_run_push(
                        s0,
                        done,
                        Step::Geom(v.key, GeomRequest::Point { vertex: vi, frame }),
                    );
                    done = done.push(Step::Geom(v.key, GeomRequest::Point { vertex: vi, frame }));
                }
                assert(self.state(imap@) == run(s0, done));
            },
            None => {},
        }
        assert(done =~= vertex_steps(*m, vi, frame));
        Node { id: vid, kind: NodeKind::Vertex, label: String::from_str("Vertex"), meta, children: Vec::new() }
    }

    /// Walks one end vertex of an edge into `children`.
    fn push_end_vertex(
        &mut self,
        m: &SceneModel,
        ei: usize,
        vi: usize,
        frame: usize,
        imap: &mut HashMap<u64, u32>,
        children: &mut Vec<Node>,
        Ghost(s0): Ghost<BState>,
        Ghost(head): Ghost<Seq<Step>>,
        Ghost(done): Ghost<Seq<usize>>,
    )
        requires
            frame < old(self).frames@.len(),
            geom_valid(*m, old(self).geom@, old(self).frames@.len()),
            vi < m.vertices@.len(),
            old(self).state(old(imap)@) == run(s0, head + vertices_steps(*m, done, frame)),
            old(children)@.len() == done.len(),
            forall|i: int|
                0 <= i < done.len() ==> vertex_node_ok(
                    *m,
                    done[i],
                    old(imap)@,
                    #[trigger] old(children)@[i],
                ),
        ensures
            geom_valid(*m, final(self).geom@, final(self).frames@.len()),
            final(self).state(final(imap)@) == run(
                s0,
                head + vertices_steps(*m, done.push(vi), frame),
            ),
            final(self).frames@ == old(self).frames@,
            final(children)@.len() == done.len() + 1,
            forall|i: int|
                0 <= i < done.len() + 1 ==> vertex_node_ok(
                    *m,
                    done.push(vi)[i],
                    final(imap)@,
                    #[trigger] final(children)@[i],
                ),
            old(imap)@.submap_of(final(imap)@),
    {
        let ghost i0 = imap@;
        let ghost st0 = self.state(imap@);
        let n = self.vertex_node(m, vi, frame, imap);
        proof {
            lemma_run_append(s0, head + vertices_steps(*m, done, frame), vertex_steps(*m, vi, frame));
            assert(done.push(vi).drop_last() =~= done);
            assert(head + vertices_steps(*m, done.push(vi), frame) =~= head + vertices_steps(
                *m,
                done,
                frame,
            ) + vertex_steps(*m, vi, frame));
        }
        children.push(n);
        proof {
            assert forall|i: int| 0 <= i < done.len() + 1 implies vertex_node_ok(
                *m,
                done.push(vi)[i],
                imap@,
                #[trigger] children@[i],
            ) by {
                if i < done.len() {
                    lemma_vertex_ok_grow(*m, done[i], i0, imap@, children@[i]);
                }
            }
        }
    }

    /// An edge of a placed instance: its node (with its end vertices); the
    /// sampled edge is recorded as its geometry once, and the edge highlights it.
    pub fn edge_node(
        &mut self,
        m: &SceneModel,
        ei: usize,
        frame: usize,
        imap: &mut HashMap<u64, u32>,
    ) -> (n: Node)
        requires
            frame < old(self).frames@.len(),
            geom_valid(*m, old(self).geom@, old(self).frames@.len()),
            ei < m.edges@.len(),
            m.edges@[ei as int].ends_in(m.vertices@.len()),
        ensures
            old(imap)@.submap_of(final(imap)@),
            geom_valid(*m, final(self).geom@, final(self).frames@.len()),
            final(self).state(final(imap)@) == run(
                old(self).state(old(imap)@),
                edge_steps(*m, ei, frame),
            ),
            final(self).frames@ == old(self).frames@,
            edge_node_ok(*m, ei, final(imap)@, n),
    {
        let ghost s0 = self.state(imap@);
        let e = &m.edges[ei];
        let eid = self.imap_id(imap, e.key);
        proof {
            lemma_run_push(s0, seq![], Step::Id(e.key));
            assert(seq![Step::Id(e.key)] =~= Seq::<Step>::empty().push(Step::Id(e.key)));
        }
        let ghost head = seq![Step::Id(e.key)];
        self.hl_push(e.key, eid);
        proof {
            lemma_run_push(s0, head, Step::Hl(e.key, seq![e.key]));
            assert(ids_of(imap@, seq![e.key]) =~= seq![eid]);
            head = head.push(Step::Hl(e.key, seq![e.key]));
        }
        self.geom_once(eid, GeomRequest::Line { edge: ei, frame });
        proof {
            lemma_run_push(s0, head, Step::Geom(e.key, GeomRequest::Line { edge: ei, frame }));
            head = head.push(Step::Geom(e.key, GeomRequest::Line { edge: ei, frame }));
            assert(head + vertices_steps(*m, seq![], frame) =~= head);
        }
        let ghost i_e = imap@;
        let (label, meta) = edge_label_meta(e);
        let mut children: Vec<Node> = Vec::new();
        let ghost done: Seq<usize> = seq![];
        match e.start {
            Some(v) => {
                self.push_end_vertex(m, ei, v, frame, imap, &mut children, Ghost(s0), Ghost(head), Ghost(done));
                proof {
                    done = done.push(v);
                }
            },
            None => {},
        }
        let ghost i_s = imap@;
        match e.end {
            Some(v) => {
                self.push_end_vertex(m, ei, v, frame, imap, &mut children, Ghost(s0), Ghost(head), Ghost(done));
                proof {
                    done = done.push(v);
                }
            },
            None => {},
        }
        proof {
            assert(done =~= edge_ends(*m, ei));
            assert(head + vertices_steps(*m, done, frame) =~= edge_steps(*m, ei, frame));
            lemma_submap_refl(i_e);
            lemma_submap_refl(i_s);
            vstd::map_lib::lemma_submap_of_trans(i_e, i_s, imap@);
            lemma_submap_get(i_e, imap@, e.key);
            vstd::map_lib::lemma_submap_of_trans(old(imap)@, i_e, imap@);
        }
        Node { id: eid, kind: NodeKind::Edge, label, meta, children }
    }

    /// A bound of a placed instance: its node, and the ids of its edge nodes.
    pub fn bound_node(
        &mut self,
        m: &SceneModel,
        b: &BoundData,
        frame: usize,
        imap: &mut HashMap<u64, u32>,
    ) -> (r: (Node, Vec<u32>))
        requires
            frame < old(self).frames@.len(),
            geom_valid(*m, old(self).geom@, old(self).frames@.len()),
            m.well_formed(),
            b.edges_in(m.edges@.len()),
        ensures
            old(imap)@.submap_of(final(imap)@),
            geom_valid(*m, final(self).geom@, final(self).frames@.len()),
            final(self).state(final(imap)@) == run(
                old(self).state(old(imap)@),
                bound_steps(*m, *b, frame),
            ),
            final(self).frames@ == old(self).frames@,
            bound_node_ok(*m, *b, final(imap)@, r.0),
            keys_in(final(imap)@, edge_keys(*m, b.edges@)),
            r.1@ == ids_of(final(imap)@, edge_keys(*m, b.edges@)),
    {
        let ghost s0 = self.state(imap@);
        let bid = self.imap_id(imap, b.key);
        proof {
            lemma_run_push(s0, seq![], Step::Id(b.key));
            assert(seq![Step::Id(b.key)] =~= Seq::<Step>::empty().push(Step::Id(b.key)));
        }
        let ghost head = seq![Step::Id(b.key)];
        let ghost i_b = imap@;
        let mut edges: Vec<Node> = Vec::new();
        let mut ids: Vec<u32> = Vec::new();
        let mut j: usize = 0;
        proof {
            lemma_submap_refl(i_b);
            assert(head + edges_steps(*m, b.edges@.take(0), frame) =~= head);
            assert(edge_keys(*m, b.edges@.take(0)) =~= Seq::<u64>::empty());
            assert(ids@ =~= ids_of(imap@, edge_keys(*m, b.edges@.take(0))));
        }
        while j < b.edges.len()
            invariant
                m.well_formed(),
                b.edges_in(m.edges@.len()),
                j <= b.edges@.len(),
                self.state(imap@) == run(s0, head + edges_steps(*m, b.edges@.take(j as int), frame)),
                frame < self.frames@.len(),
                geom_valid(*m, self.geom@, self.frames@.len()),
                self.frames@ == old(self).frames@,
                i_b.submap_of(imap@),
                i_b.contains_key(b.key),
                i_b[b.key] == bid,
                edges@.len() == j,
                forall|i: int|
                    0 <= i < j ==> edge_node_ok(*m, b.edges@[i], imap@, #[trigger] edges@[i]),
                keys_in(imap@, edge_keys(*m, b.edges@.take(j as int))),
                ids@ == ids_of(imap@, edge_keys(*m, b.edges@.take(j as int))),
            decreases b.edges@.len() - j,
        {
            let ei = b.edges[j];
            let ghost i0 = imap@;
            let ghost st0 = self.state(imap@);
            proof {
                assert(b.edges@[j as int] < m.edges@.len());
                assert(m.edges@[ei as int].ends_in(m.vertices@.len()));
            }
            let e = self.edge_node(m, ei, frame, imap);
            proof {
                vstd::map_lib::lemma_submap_of_trans(i_b, i0, imap@);
                lemma_run_append(
                    s0,
                    head + edges_steps(*m, b.edges@.take(j as int), frame),
                    edge_steps(*m, ei, frame),
                );
                assert(b.edges@.take(j + 1).drop_last() =~= b.edges@.take(j as int));
                assert(head + edges_steps(*m, b.edges@.take(j + 1), frame) =~= head + edges_steps(
                    *m,
                    b.edges@.take(j as int),
                    frame,
                ) + edge_steps(*m, ei, frame));
                lemma_ids_of_grow(i0, imap@, edge_keys(*m, b.edges@.take(j as int)));
                assert(edge_keys(*m, b.edges@.take(j + 1)) =~= edge_keys(
                    *m,
                    b.edges@.take(j as int),
                ).push(m.edges@[ei as int].key));
            }
            ids.push(e.id);
            edges.push(e);
            proof {
                assert forall|i: int| 0 <= i < j + 1 implies edge_node_ok(
                    *m,
                    b.edges@[i],
                    imap@,
                    #[trigger] edges@[i],
                ) by {
                    if i < j {
                        lemma_edge_ok_grow(*m, b.edges@[i], i0, imap@, edges@[i]);
                    }
                }
                let ks = edge_keys(*m, b.edges@.take(j + 1));
                assert(ids@ =~= ids_of(imap@, ks));
            }
            j = j + 1;
        }
        proof {
            assert(b.edges@.take(j as int) =~= b.edges@);
            lemma_submap_get(i_b, imap@, b.key);
            vstd::map_lib::lemma_submap_of_trans(old(imap)@, i_b, imap@);
        }
        (Node { id: bid, kind: NodeKind::Bound, label: String::from_str("Bound"), meta: Vec::new(), children: edges }, ids)
    }

    /// A face of a placed instance: its node, and the ids of its edge nodes
    /// (which a feature referencing the face highlights).
    pub fn face_node(
        &mut self,
        m: &SceneModel,
        f: &FaceData,
        frame: usize,
        imap: &mut HashMap<u64, u32>,
    ) -> (r: (Node, Vec<u32>))
        requires
            frame < old(self).frames@.len(),
            geom_valid(*m, old(self).geom@, old(self).frames@.len()),
            m.well_formed(),
            f.edges_in(m.edges@.len()),
        ensures
            old(imap)@.submap_of(final(imap)@),
            geom_valid(*m, final(self).geom@, final(self).frames@.len()),
            final(self).state(final(imap)@) == run(
                old(self).state(old(imap)@),
                face_steps(*m, *f, frame),
            ),
            final(self).frames@ == old(self).frames@,
            face_node_ok(*m, *f, final(imap)@, r.0),
            keys_in(final(imap)@, bounds_edge_keys(*m, f.bounds@)),
            r.1@ == ids_of(final(imap)@, bounds_edge_keys(*m, f.bounds@)),
    {
        let ghost s0 = self.state(imap@);
        let fid = self.imap_id(imap, f.key);
        proof {
            lemma_run_push(s0, seq![], Step::Id(f.key));
            assert(seq![Step::Id(f.key)] =~= Seq::<Step>::empty().push(Step::Id(f.key)));
        }
        let ghost head = seq![Step::Id(f.key)];
        let ghost i_f = imap@;
        let (label, meta) = face_label_meta(f);
        let mut bounds: Vec<Node> = Vec::new();
        let mut ids: Vec<u32> = Vec::new();
        let mut j: usize = 0;
        proof {
            lemma_submap_refl(i_f);
            assert(head + bounds_steps(*m, f.bounds@.take(0), frame) =~= head);
            assert(bounds_edge_keys(*m, f.bounds@.take(0)) =~= Seq::<u64>::empty());
            assert(ids@ =~= ids_of(imap@, bounds_edge_keys(*m, f.bounds@.take(0))));
        }
        while j < f.bounds.len()
            invariant
                m.well_formed(),
                f.edges_in(m.edges@.len()),
                j <= f.bounds@.len(),
                self.state(imap@) == run(s0, head + bounds_steps(*m, f.bounds@.take(j as int), frame)),
                frame < self.frames@.len(),
                geom_valid(*m, self.geom@, self.frames@.len()),
                self.frames@ == old(self).frames@,
                i_f.submap_of(imap@),
                i_f.contains_key(f.key),
                i_f[f.key] == fid,
                bounds@.len() == j,
                forall|i: int|
                    0 <= i < j ==> bound_node_ok(*m, f.bounds@[i], imap@, #[trigger] bounds@[i]),
                keys_in(imap@, bounds_edge_keys(*m, f.bounds@.take(j as int))),
                ids@ == ids_of(imap@, bounds_edge_keys(*m, f.bounds@.take(j as int))),
            decreases f.bounds@.len() - j,
        {
            let b = &f.bounds[j];
            let ghost i0 = imap@;
            let ghost st0 = self.state(imap@);
            proof {
                assert(f.bounds@[j as int].edges_in(m.edges@.len()));
            }
            let (bnode, mut bids) = self.bound_node(m, b, frame, imap);
            proof {
                vstd::map_lib::lemma_submap_of_trans(i_f, i0, imap@);
                lemma_run_append(
                    s0,
                    head + bounds_steps(*m, f.bounds@.take(j as int), frame),
                    bound_steps(*m, *b, frame),
                );
                assert(f.bounds@.take(j + 1).drop_last() =~= f.bounds@.take(j as int));
                assert(head + bounds_steps(*m, f.bounds@.take(j + 1), frame) =~= head
                    + bounds_steps(*m, f.bounds@.take(j as int), frame) + bound_steps(*m, *b, frame));
                lemma_ids_of_grow(i0, imap@, bounds_edge_keys(*m, f.bounds@.take(j as int)));
                lemma_ids_of_append(
                    imap@,
                    bounds_edge_keys(*m, f.bounds@.take(j as int)),
                    edge_keys(*m, b.edges@),
                );
            }
            ids.append(&mut bids);
            bounds.push(bnode);
            proof {
                assert forall|i: int| 0 <= i < j + 1 implies bound_node_ok(
                    *m,
                    f.bounds@[i],
                    imap@,
                    #[trigger] bounds@[i],
                ) by {
                    if i < j {
                        lemma_bound_ok_grow(*m, f.bounds@[i], i0, imap@, bounds@[i]);
                    }
                }
                let ks = bounds_edge_keys(*m, f.bounds@.take(j + 1));
                assert(ks =~= bounds_edge_keys(*m, f.bounds@.take(j as int)) + edge_keys(*m, b.edges@));
                assert forall|i: int| 0 <= i < ks.len() implies imap@.contains_key(#[trigger] ks[i]) by {
                    let n0 = bounds_edge_keys(*m, f.bounds@.take(j as int)).len();
                    if i >= n0 {
                        assert(ks[i] == edge_keys(*m, b.edges@)[i - n0]);
                    }
                }
                assert(ids@ =~= ids_of(imap@, ks));
            }
            j = j + 1;
        }
        proof {
            assert(f.bounds@.take(j as int) =~= f.bounds@);
        }
        let ghost i_end = imap@;
        let ghost before = self.state(imap@);
        self.hl_extend(f.key, &ids);
        proof {
            let st = Step::Hl(f.key, bounds_edge_keys(*m, f.bounds@));
            lemma_run_append(s0, head + bounds_steps(*m, f.bounds@, frame), seq![st]);
            lemma_run_push(before, Seq::<Step>::empty(), st);
            assert(seq![st] =~= Seq::<Step>::empty().push(st));
            assert(self.state(imap@) =~= apply_step(before, st));
            assert(head + bounds_steps(*m, f.bounds@, frame) + seq![st] =~= face_steps(*m, *f, frame));
            lemma_submap_get(i_f, imap@, f.key);
            vstd::map_lib::lemma_submap_of_trans(old(imap)@, i_f, imap@);
        }
        (Node { id: fid, kind: NodeKind::Face, label, meta, children: bounds }, ids)
    }

    /// Walks the listed faces in turn: their nodes, and their edge ids.
    pub fn faces_walk(
        &mut self,
        m: &SceneModel,
        fs: &Vec<FaceData>,
        frame: usize,
        imap: &mut HashMap<u64, u32>,
    ) -> (r: (Vec<Node>, Vec<u32>))
        requires
            frame < old(self).frames@.len(),
            geom_valid(*m, old(self).geom@, old(self).frames@.len()),
            m.well_formed(),
            faces_edges_in(fs@, m.edges@.len()),
        ensures
            old(imap)@.submap_of(final(imap)@),
            geom_valid(*m, final(self).geom@, final(self).frames@.len()),
            final(self).state(final(imap)@) == run(
                old(self).state(old(imap)@),
                faces_steps(*m, fs@, frame),
            ),
            final(self).frames@ == old(self).frames@,
            faces_ok(*m, fs@, final(imap)@, r.0@),
            keys_in(final(imap)@, faces_edge_keys(*m, fs@)),
            r.1@ == ids_of(final(imap)@, faces_edge_keys(*m, fs@)),
    {
        let ghost s0 = self.state(imap@);
        let ghost i_s = imap@;
        let mut faces: Vec<Node> = Vec::new();
        let mut ids: Vec<u32> = Vec::new();
        let mut j: usize = 0;
        proof {
            lemma_submap_refl(i_s);
            assert(faces_steps(*m, fs@.take(0), frame) =~= Seq::<Step>::empty());
            assert(faces_edge_keys(*m, fs@.take(0)) =~= Seq::<u64>::empty());
            assert(ids@ =~= ids_of(imap@, faces_edge_keys(*m, fs@.take(0))));
        }
        while j < fs.len()
            invariant
                m.well_formed(),
                faces_edges_in(fs@, m.edges@.len()),
                j <= fs@.len(),
                self.state(imap@) == run(s0, faces_steps(*m, fs@.take(j as int), frame)),
                frame < self.frames@.len(),
                geom_valid(*m, self.geom@, self.frames@.len()),
                self.frames@ == old(self).frames@,
                i_s == old(imap)@,
                i_s.submap_of(imap@),
                faces@.len() == j,
                forall|i: int| 0 <= i < j ==> face_node_ok(*m, fs@[i], imap@, #[trigger] faces@[i]),
                keys_in(imap@, faces_edge_keys(*m, fs@.take(j as int))),
                ids@ == ids_of(imap@, faces_edge_keys(*m, fs@.take(j as int))),
            decreases fs@.len() - j,
        {
            let f = &fs[j];
            let ghost i0 = imap@;
            proof {
                assert(fs@[j as int].edges_in(m.edges@.len()));
            }
            let (fnode, mut fids) = self.face_node(m, f, frame, imap);
            proof {
                vstd::map_lib::lemma_submap_of_trans(i_s, i0, imap@);
                lemma_run_append(s0, faces_steps(*m, fs@.take(j as int), frame), face_steps(*m, *f, frame));
                assert(fs@.take(j + 1).drop_last() =~= fs@.take(j as int));
                lemma_ids_of_grow(i0, imap@, faces_edge_keys(*m, fs@.take(j as int)));
                lemma_ids_of_append(imap@, faces_edge_keys(*m, fs@.take(j as int)), bounds_edge_keys(*m, f.bounds@));
            }
            ids.append(&mut fids);
            faces.push(fnode);
            proof {
                assert forall|i: int| 0 <= i < j + 1 implies face_node_ok(
                    *m,
                    fs@[i],
                    imap@,
                    #[trigger] faces@[i],
                ) by {
                    if i < j {
                        lemma_face_ok_grow(*m, fs@[i], i0, imap@, faces@[i]);
                    }
                }
                let ks = faces_edge_keys(*m, fs@.take(j + 1));
                assert(ks =~= faces_edge_keys(*m, fs@.take(j as int)) + bounds_edge_keys(*m, f.bounds@));
                assert forall|i: int| 0 <= i < ks.len() implies imap@.contains_key(#[trigger] ks[i]) by {
                    let n0 = faces_edge_keys(*m, fs@.take(j as int)).len();
                    if i >= n0 {
                        assert(ks[i] == bounds_edge_keys(*m, f.bounds@)[i - n0]);
                    }
                }
                assert(ids@ =~= ids_of(imap@, ks));
            }
            j = j + 1;
        }
        proof {
            assert(fs@.take(j as int) =~= fs@);
        }
        (faces, ids)
    }

    /// A solid of a placed instance (at frame `frame`): its outer faces, then
    /// each internal cavity as a "Void" group of its faces.
    pub fn solid_node(
        &mut self,
        m: &SceneModel,
        si: usize,
        frame: usize,
        imap: &mut HashMap<u64, u32>,
    ) -> (n: Node)
        requires
            frame < old(self).frames@.len(),
            geom_valid(*m, old(self).geom@, old(self).frames@.len()),
            m.well_formed(),
            si < m.solids@.len(),
        ensures
            old(imap)@.submap_of(final(imap)@),
            geom_valid(*m, final(self).geom@, final(self).frames@.len()),
            final(self).state(final(imap)@) == run(
                old(self).state(old(imap)@),
                solid_steps(*m, si, frame),
            ),
            final(self).frames@ == old(self).frames@,
            solid_node_ok(*m, si, final(imap)@, n),
    {
        let ghost s0 = self.state(imap@);
        let s = &m.solids[si];
        proof {
            assert(m.solids@[si as int].edges_in(m.edges@.len()));
        }
        let sid = self.imap_id(imap, s.key);
        proof {
            lemma_run_push(s0, seq![], Step::Id(s.key));
            assert(seq![Step::Id(s.key)] =~= Seq::<Step>::empty().push(Step::Id(s.key)));
        }
        let ghost head = seq![Step::Id(s.key)];
        let ghost i_s = imap@;
        let ghost st1 = self.state(imap@);
        let (mut children, mut ids) = self.faces_walk(m, &s.faces, frame, imap);
        let ghost i_f = imap@;
        let ghost outer = children@;
        let ghost fk = faces_edge_keys(*m, s.faces@);
        proof {
            lemma_run_append(s0, head, faces_steps(*m, s.faces@, frame));
            assert(head + faces_steps(*m, s.faces@, frame) + voids_steps(*m, s.voids@.take(0), frame)
                =~= head + faces_steps(*m, s.faces@, frame));
            assert(voids_edge_keys(*m, s.voids@.take(0)) =~= Seq::<u64>::empty());
            assert(fk + voids_edge_keys(*m, s.voids@.take(0)) =~= fk);
            lemma_submap_refl(i_f);
        }
        let ghost pre = head + faces_steps(*m, s.faces@, frame);
        let mut c: usize = 0;
        while c < s.voids.len()
            invariant
                m.well_formed(),
                si < m.solids@.len(),
                *s == m.solids@[si as int],
                s.edges_in(m.edges@.len()),
                c <= s.voids@.len(),
                self.state(imap@) == run(s0, pre + voids_steps(*m, s.voids@.take(c as int), frame)),
                frame < self.frames@.len(),
                geom_valid(*m, self.geom@, self.frames@.len()),
                self.frames@ == old(self).frames@,
                i_f.submap_of(imap@),
                children@.len() == s.faces@.len() + c,
                children@.take(s.faces@.len() as int) == outer,
                faces_ok(*m, s.faces@, i_f, outer),
                forall|t: int|
                    #![trigger s.voids@[t]]
                    0 <= t < c ==> void_node_ok(*m, s.voids@[t], imap@, children@[s.faces@.len() + t]),
                keys_in(imap@, fk + voids_edge_keys(*m, s.voids@.take(c as int))),
                ids@ == ids_of(imap@, fk + voids_edge_keys(*m, s.voids@.take(c as int))),
            decreases s.voids@.len() - c,
        {
            let ghost i0 = imap@;
            let ghost st0 = self.state(imap@);
            let ghost ch0 = children@;
            let cavity = &s.voids[c];
            let vid = self.imap_id(imap, cavity.key);
            let ghost i1 = imap@;
            proof {
                lemma_run_push(
                    s0,
                    pre + voids_steps(*m, s.voids@.take(c as int), frame),
                    Step::Id(cavity.key),
                );
                assert(self.state(imap@) == apply_step(st0, Step::Id(cavity.key)));
                assert(faces_edges_in(s.voids@[c as int].faces@, m.edges@.len()));
            }
            let (vfaces, mut vids) = self.faces_walk(m, &cavity.faces, frame, imap);
            let ghost cav = cavity.faces@;
            proof {
                let p0 = pre + voids_steps(*m, s.voids@.take(c as int), frame);
                lemma_run_append(s0, p0.push(Step::Id(cavity.key)), faces_steps(*m, cav, frame));
                assert(s.voids@.take(c + 1).drop_last() =~= s.voids@.take(c as int));
                assert(s.voids@.take(c + 1).last() == s.voids@[c as int]);
                assert(pre + voids_steps(*m, s.voids@.take(c + 1), frame) =~= p0.push(Step::Id(cavity.key))
                    + faces_steps(*m, cav, frame));
                let ks0 = fk + voids_edge_keys(*m, s.voids@.take(c as int));
                vstd::map_lib::lemma_submap_of_trans(i0, i1, imap@);
                lemma_ids_of_grow(i0, imap@, ks0);
                lemma_ids_of_append(imap@, ks0, faces_edge_keys(*m, cav));
                assert(fk + voids_edge_keys(*m, s.voids@.take(c + 1)) =~= ks0 + faces_edge_keys(*m, cav));
                vstd::map_lib::lemma_submap_of_trans(i_f, i0, imap@);
                lemma_submap_get(i1, imap@, cavity.key);
            }
            ids.append(&mut vids);
            children.push(
                Node { id: vid, kind: NodeKind::Void, label: String::from_str("Void"), meta: Vec::new(), children: vfaces },
            );
            proof {
                let ks = fk + voids_edge_keys(*m, s.voids@.take(c + 1));
                let ks0 = fk + voids_edge_keys(*m, s.voids@.take(c as int));
                assert forall|i: int| 0 <= i < ks.len() implies imap@.contains_key(#[trigger] ks[i]) by {
                    if i >= ks0.len() {
                        assert(ks[i] == faces_edge_keys(*m, cav)[i - ks0.len()]);
                    } else {
                        assert(ks[i] == ks0[i]);
                    }
                }
                assert(ids@ =~= ids_of(imap@, ks));
                assert(children@.take(s.faces@.len() as int) =~= ch0.take(s.faces@.len() as int));
                assert forall|t: int|
                    #![trigger s.voids@[t]]
                    0 <= t < c + 1 implies void_node_ok(
                        *m,
                        s.voids@[t],
                        imap@,
                        children@[s.faces@.len() + t],
                    ) by {
                    if t < c {
                        assert(children@[s.faces@.len() + t] == ch0[s.faces@.len() + t]);
                        lemma_submap_get(i0, imap@, s.voids@[t].key);
                        lemma_faces_ok_grow(
                            *m,
                            s.voids@[t].faces@,
                            i0,
                            imap@,
                            ch0[s.faces@.len() + t].children@,
                        );
                    } else {
                        assert(children@[s.faces@.len() + t].children@ == vfaces@);
                    }
                }
            }
            c = c + 1;
        }
        proof {
            assert(s.voids@.take(c as int) =~= s.voids@);
        }
        let ghost before = self.state(imap@);
        self.hl_extend(s.key, &ids);
        proof {
            let st = Step::Hl(s.key, fk + voids_edge_keys(*m, s.voids@));
            lemma_run_append(s0, pre + voids_steps(*m, s.voids@, frame), seq![st]);
            lemma_run_push(before, Seq::<Step>::empty(), st);
            assert(seq![st] =~= Seq::<Step>::empty().push(st));
            assert(self.state(imap@) =~= apply_step(before, st));
            assert(pre + voids_steps(*m, s.voids@, frame) + seq![st] =~= solid_steps(*m, si, frame));
            vstd::map_lib::lemma_submap_of_trans(i_s, i_f, imap@);
            lemma_submap_get(i_s, imap@, s.key);
            vstd::map_lib::lemma_submap_of_trans(old(imap)@, i_s, imap@);
            lemma_faces_ok_grow(*m, s.faces@, i_f, imap@, outer);
        }
        let meta = solid_meta_rows(s);
        Node { id: sid, kind: NodeKind::Solid, label: String::from_str("Solid"), meta, children }
    }
}

} // verus!
